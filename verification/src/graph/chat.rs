//! Which messages of a chat belong to a window, and when to stop reading.

use vstd::prelude::*;
use crate::graph::records::{GraphChatMessage, GraphChatMessageView};
use crate::lists::filtered;
use crate::text;
use crate::text::{is_text, less_text};

verus! {

/// A message that somebody wrote, as opposed to a note of the system. One
/// without a type is taken for such a message.
pub open spec fn real_message(m: GraphChatMessageView) -> bool {
    m.message_type is None || m.message_type == Some("message"@)
}

/// A message that somebody wrote, as opposed to a note of the system.
pub fn is_real_message(m: &GraphChatMessage) -> (r: bool)
    ensures
        r == real_message(m.deep_view()),
{
    m.message_type.is_none() || is_text(&m.message_type, "message")
}

/// A real message created in the half-open window. Graph writes its times so
/// that they sort as texts in the order of time.
pub open spec fn in_window(from: Seq<char>, to: Seq<char>, m: GraphChatMessageView) -> bool {
    real_message(m) && !text::text_less(m.created_date_time, from) && text::text_less(
        m.created_date_time,
        to,
    )
}

/// The real messages created in the half-open window, in order.
pub open spec fn windowed(
    from: Seq<char>,
    to: Seq<char>,
    msgs: Seq<GraphChatMessage>,
) -> Seq<GraphChatMessage> {
    msgs.filter(|m: GraphChatMessage| in_window(from, to, m.deep_view()))
}

/// The real messages created in the half-open window, in order.
pub fn chat_messages_in_window(from_t: &str, to_t: &str, msgs: Vec<GraphChatMessage>) -> (r: Vec<
    GraphChatMessage,
>)
    ensures
        r@ == windowed(from_t@, to_t@, msgs@),
{
    let ghost kept = |m: GraphChatMessageView| in_window(from_t@, to_t@, m);
    let keep = |m: &GraphChatMessage| -> (b: bool)
        ensures
            b == kept(m.deep_view()),
        {
            is_real_message(m) && !less_text(m.created_date_time.as_str(), from_t) && less_text(
                m.created_date_time.as_str(),
                to_t,
            )
        };
    let r = filtered(msgs, keep, Ghost(kept));
    assert((|m: GraphChatMessage| kept(m.deep_view())) =~= (|m: GraphChatMessage|
        in_window(from_t@, to_t@, m.deep_view())));
    r
}

/// Adjacent windows split the messages of a chat without loss or overlap: what the
/// whole window takes is what its two halves take together, and no message stands in
/// both halves.
pub proof fn law_adjacent_windows_split_the_messages(
    from: Seq<char>,
    mid: Seq<char>,
    to: Seq<char>,
    msgs: Seq<GraphChatMessage>,
)
    requires
        !text::text_less(mid, from),
        !text::text_less(to, mid),
    ensures
        forall|m: GraphChatMessageView| #[trigger]
            in_window(from, to, m) <==> in_window(from, mid, m) || in_window(mid, to, m),
        forall|m: GraphChatMessageView|
            !(#[trigger] in_window(from, mid, m) && #[trigger] in_window(mid, to, m)),
        windowed(from, to, msgs).to_multiset() == windowed(from, mid, msgs).to_multiset().add(
            windowed(mid, to, msgs).to_multiset(),
        ),
    decreases msgs.len(),
{
    broadcast use vstd::seq_lib::group_to_multiset_ensures;

    reveal(Seq::filter);
    assert forall|m: GraphChatMessageView| #[trigger]
        in_window(from, to, m) <==> in_window(from, mid, m) || in_window(mid, to, m) by {
        text::lemma_text_order_transitive(from, mid, m.created_date_time);
        text::lemma_text_order_transitive(m.created_date_time, mid, to);
    }
    let whole = windowed(from, to, msgs);
    let first = windowed(from, mid, msgs);
    let second = windowed(mid, to, msgs);
    if msgs.len() > 0 {
        law_adjacent_windows_split_the_messages(from, mid, to, msgs.drop_last());
        let m = msgs.last();
        assert(in_window(from, to, m.deep_view()) <==> in_window(from, mid, m.deep_view())
            || in_window(mid, to, m.deep_view()));
    }
    assert(whole.to_multiset() =~= first.to_multiset().add(second.to_multiset()));
}

/// Whether a page holds anything older than the start of the window.
pub open spec fn reached_start(from: Seq<char>, msgs: Seq<GraphChatMessageView>) -> bool {
    exists|i: int| 0 <= i < msgs.len() && text::text_less((#[trigger] msgs[i]).created_date_time, from)
}

/// Whether a page holds anything older than the start of the window. Messages
/// come newest first, so that no later page can contribute then.
pub fn page_reached_window_start(from_t: &str, msgs: &[GraphChatMessage]) -> (r: bool)
    ensures
        r == reached_start(from_t@, msgs.deep_view()),
{
    let mut i: usize = 0;
    let ghost all = msgs.deep_view();
    while i < msgs.len()
        invariant
            i <= msgs.len(),
            all == msgs.deep_view(),
            forall|j: int|
                0 <= j < i ==> !text::text_less((#[trigger] all[j]).created_date_time, from_t@),
        decreases msgs.len() - i,
    {
        assert(all[i as int] == msgs@[i as int].deep_view());
        if less_text(msgs[i].created_date_time.as_str(), from_t) {
            return true;
        }
        i += 1;
    }
    false
}

/// Whether no message stands behind an older one.
pub open spec fn newest_first(msgs: Seq<GraphChatMessageView>) -> bool {
    forall|i: int, j: int|
        0 <= i < j < msgs.len() ==> !text::text_less(
            (#[trigger] msgs[i]).created_date_time,
            (#[trigger] msgs[j]).created_date_time,
        )
}

/// Where messages come newest first, nothing behind a page that reached the
/// start of the window belongs to the window: stopping there loses no message.
pub proof fn law_stopping_loses_no_message(
    from: Seq<char>,
    to: Seq<char>,
    page: Seq<GraphChatMessageView>,
    later: Seq<GraphChatMessageView>,
    k: int,
)
    requires
        newest_first(page + later),
        reached_start(from, page),
        0 <= k < later.len(),
    ensures
        !in_window(from, to, later[k]),
{
    let i = choose|i: int|
        0 <= i < page.len() && text::text_less((#[trigger] page[i]).created_date_time, from);
    let all = page + later;
    assert(all[i] == page[i]);
    assert(all[page.len() + k] == later[k]);
    text::lemma_text_order_transitive(
        later[k].created_date_time,
        page[i].created_date_time,
        from,
    );
}

/// A message belongs to a window exactly where somebody wrote it, which one without a
/// type is taken for, and it was created at the start or later and before the end; what
/// else it holds does not matter.
pub proof fn law_which_messages_belong(
    from: Seq<char>,
    to: Seq<char>,
    m: GraphChatMessageView,
    n: GraphChatMessageView,
)
    ensures
        in_window(from, to, m) <==> (match m.message_type {
            Some(t) => t == "message"@,
            None => true,
        }) && (m.created_date_time == from || text::text_less(from, m.created_date_time))
            && text::text_less(m.created_date_time, to),
        m.message_type == n.message_type && m.created_date_time == n.created_date_time ==> in_window(
            from,
            to,
            m,
        ) == in_window(from, to, n),
{
    text::lemma_text_order(from, m.created_date_time);
}

/// A page has reached the start of a window exactly where one of its messages, wherever
/// it stands and whoever wrote it, is older than that.
pub proof fn law_a_page_reaches_by_any_message(
    from: Seq<char>,
    before: Seq<GraphChatMessageView>,
    m: GraphChatMessageView,
    behind: Seq<GraphChatMessageView>,
)
    ensures
        reached_start(from, before + seq![m] + behind) <==> reached_start(from, before)
            || text::text_less(m.created_date_time, from) || reached_start(from, behind),
        !reached_start(from, Seq::empty()),
{
    let all = before + seq![m] + behind;
    let n = before.len() as int;
    assert(all[n] == m);
    if reached_start(from, all) {
        let i = choose|i: int|
            0 <= i < all.len() && text::text_less((#[trigger] all[i]).created_date_time, from);
        if i < n {
            assert(before[i] == all[i]);
        } else if i > n {
            assert(behind[i - n - 1] == all[i]);
        }
    }
    if reached_start(from, before) {
        let i = choose|i: int|
            0 <= i < before.len() && text::text_less((#[trigger] before[i]).created_date_time, from);
        assert(all[i] == before[i]);
    }
    if reached_start(from, behind) {
        let i = choose|i: int|
            0 <= i < behind.len() && text::text_less((#[trigger] behind[i]).created_date_time, from);
        assert(all[n + 1 + i] == behind[i]);
    }
}

/// The window is half-open: a message created at its start belongs to it, one
/// created at its end does not.
pub proof fn law_the_window_is_half_open(from: Seq<char>, to: Seq<char>, m: GraphChatMessageView)
    requires
        real_message(m),
    ensures
        m.created_date_time == from && text::text_less(from, to) ==> in_window(from, to, m),
        m.created_date_time == to ==> !in_window(from, to, m),
{
    text::lemma_text_order(m.created_date_time, m.created_date_time);
}

} // verus!
