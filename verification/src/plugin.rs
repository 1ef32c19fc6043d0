//! What a source is to the engine that runs it.

use vstd::prelude::*;
use crate::textmap::TextMap;

verus! {

/// The version of the protocol between the engine and its sources.
pub const PROTOCOL: u32 = 1;

/// How the engine calls a source.
#[derive(Clone, Copy, Debug, PartialEq, Eq, Structural)]
pub enum FetchStyle {
    /// Once per window of time.
    Windowed,
    /// One version of the whole at a time, against a checkpoint.
    Snapshot,
    /// Everything, every time.
    Sweep,
}

/// How a source presents itself.
#[derive(Debug, PartialEq, Eq)]
pub struct Describe {
    pub name: String,
    pub link_namespace: String,
    pub fetch_style: FetchStyle,
    pub auth_realm: Option<String>,
    pub protocol: u32,
}

#[verifier::ext_equal]
pub struct DescribeView {
    pub name: Seq<char>,
    pub link_namespace: Seq<char>,
    pub fetch_style: FetchStyle,
    pub auth_realm: Option<Seq<char>>,
    pub protocol: u32,
}

impl DeepView for Describe {
    type V = DescribeView;

    open spec fn deep_view(&self) -> DescribeView {
        DescribeView {
            name: self.name@,
            link_namespace: self.link_namespace@,
            fetch_style: self.fetch_style,
            auth_realm: self.auth_realm.deep_view(),
            protocol: self.protocol,
        }
    }
}

/// A source of this name and style, without an authentication realm, that
/// speaks the current protocol.
pub fn describe_source(name: &str, link_namespace: &str, fetch_style: FetchStyle) -> (d: Describe)
    ensures
        d.deep_view() == (DescribeView {
            name: name@,
            link_namespace: link_namespace@,
            fetch_style,
            auth_realm: None,
            protocol: PROTOCOL,
        }),
{
    Describe {
        name: name.to_string(),
        link_namespace: link_namespace.to_string(),
        fetch_style,
        auth_realm: None,
        protocol: PROTOCOL,
    }
}

/// What one run is asked to fetch.
#[derive(Debug, PartialEq, Eq)]
pub enum RunSpec {
    Window { from: String, to: String },
    Snapshot,
    Sweep,
}

/// Where a source stands with its credentials.
#[derive(Debug, PartialEq, Eq)]
pub enum AuthStatus {
    NotRequired,
    Authenticated(String),
    NotAuthenticated(String),
}

#[verifier::ext_equal]
pub enum AuthStatusView {
    NotRequired,
    Authenticated(Seq<char>),
    NotAuthenticated(Seq<char>),
}

impl DeepView for AuthStatus {
    type V = AuthStatusView;

    open spec fn deep_view(&self) -> AuthStatusView {
        match self {
            AuthStatus::NotRequired => AuthStatusView::NotRequired,
            AuthStatus::Authenticated(s) => AuthStatusView::Authenticated(s@),
            AuthStatus::NotAuthenticated(s) => AuthStatusView::NotAuthenticated(s@),
        }
    }
}

/// What the owner has to do to sign in, and how to ask whether it is done.
#[derive(Debug, PartialEq, Eq)]
pub struct AuthChallenge {
    pub verification_url: String,
    pub user_code: String,
    pub expires_in_secs: u64,
    pub handle: String,
}

#[verifier::ext_equal]
pub struct AuthChallengeView {
    pub verification_url: Seq<char>,
    pub user_code: Seq<char>,
    pub expires_in_secs: u64,
    pub handle: Seq<char>,
}

impl DeepView for AuthChallenge {
    type V = AuthChallengeView;

    open spec fn deep_view(&self) -> AuthChallengeView {
        AuthChallengeView {
            verification_url: self.verification_url@,
            user_code: self.user_code@,
            expires_in_secs: self.expires_in_secs,
            handle: self.handle@,
        }
    }
}

/// What a question about a pending sign-in brought.
#[derive(Debug, PartialEq, Eq)]
pub enum AuthPollResult {
    Pending,
    Done(String),
    Failed(String),
}

#[verifier::ext_equal]
pub enum AuthPollResultView {
    Pending,
    Done(Seq<char>),
    Failed(Seq<char>),
}

impl DeepView for AuthPollResult {
    type V = AuthPollResultView;

    open spec fn deep_view(&self) -> AuthPollResultView {
        match self {
            AuthPollResult::Pending => AuthPollResultView::Pending,
            AuthPollResult::Done(s) => AuthPollResultView::Done(s@),
            AuthPollResult::Failed(s) => AuthPollResultView::Failed(s@),
        }
    }
}

/// One piece of evidence.
#[derive(Debug, PartialEq, Eq)]
pub struct Item {
    /// Stable identity at the provider.
    pub id: String,
    pub kind: String,
    /// The provider's own version, where it has one.
    pub version: Option<String>,
    /// SHA-256 of the primary content, in hexadecimal.
    pub content_hash: String,
    /// The files of the item, relative to the run directory, the primary one
    /// first.
    pub files: Vec<String>,
    /// SHA-256 of each further file, by its path.
    pub file_hashes: TextMap,
    /// Where the item stands within a bundle.
    pub locator: Option<String>,
    pub meta: String,
}

#[verifier::ext_equal]
pub struct ItemView {
    pub id: Seq<char>,
    pub kind: Seq<char>,
    pub version: Option<Seq<char>>,
    pub content_hash: Seq<char>,
    pub files: Seq<Seq<char>>,
    pub file_hashes: Map<Seq<char>, Seq<char>>,
    pub locator: Option<Seq<char>>,
    pub meta: Seq<char>,
}

impl DeepView for Item {
    type V = ItemView;

    open spec fn deep_view(&self) -> ItemView {
        ItemView {
            id: self.id@,
            kind: self.kind@,
            version: self.version.deep_view(),
            content_hash: self.content_hash@,
            files: self.files.deep_view(),
            file_hashes: self.file_hashes@,
            locator: self.locator.deep_view(),
            meta: self.meta@,
        }
    }
}

/// What a run brings back.
#[derive(Debug, PartialEq, Eq)]
pub struct FetchResult {
    pub items: Vec<Item>,
    pub notes: String,
    pub next_checkpoint: Option<String>,
}

#[verifier::ext_equal]
pub struct FetchResultView {
    pub items: Seq<ItemView>,
    pub notes: Seq<char>,
    pub next_checkpoint: Option<Seq<char>>,
}

impl DeepView for FetchResult {
    type V = FetchResultView;

    open spec fn deep_view(&self) -> FetchResultView {
        FetchResultView {
            items: self.items.deep_view(),
            notes: self.notes@,
            next_checkpoint: self.next_checkpoint.deep_view(),
        }
    }
}

/// A run that found nothing new.
pub fn nothing_new(notes: String, checkpoint: String) -> (r: FetchResult)
    ensures
        r.deep_view() == (FetchResultView {
            items: Seq::empty(),
            notes: notes@,
            next_checkpoint: Some(checkpoint@),
        }),
{
    let r = FetchResult { items: Vec::new(), notes, next_checkpoint: Some(checkpoint) };
    assert(r.items.deep_view() =~= Seq::<ItemView>::empty());
    r
}

/// Why a call failed, or that it did not.
pub open spec fn outcome(r: Result<(), String>) -> Result<(), Seq<char>> {
    match r {
        Ok(_) => Ok(()),
        Err(e) => Err(e@),
    }
}

/// What is stated of an item and of a result is stated of their own fields.
pub proof fn law_an_item_is_its_fields(i: Item, r: FetchResult)
    ensures
        i.deep_view().id == i.id@,
        i.deep_view().kind == i.kind@,
        i.deep_view().content_hash == i.content_hash@,
        i.deep_view().meta == i.meta@,
        i.deep_view().file_hashes == i.file_hashes@,
        i.deep_view().version == i.version.deep_view(),
        i.deep_view().locator == i.locator.deep_view(),
        i.deep_view().files == i.files.deep_view(),
        r.deep_view().items.len() == r.items@.len(),
        forall|k: int|
            0 <= k < r.items@.len() ==> #[trigger] r.deep_view().items[k] == r.items@[k].deep_view(),
        r.deep_view().notes == r.notes@,
        r.deep_view().next_checkpoint == r.next_checkpoint.deep_view(),
{
}

/// What is stated of how a source presents itself, and of a challenge, is stated of their
/// own fields.
pub proof fn law_a_description_is_its_fields(d: Describe, c: AuthChallenge)
    ensures
        d.deep_view().name == d.name@,
        d.deep_view().link_namespace == d.link_namespace@,
        d.deep_view().fetch_style == d.fetch_style,
        d.deep_view().protocol == d.protocol,
        d.deep_view().auth_realm == d.auth_realm.deep_view(),
        c.deep_view().verification_url == c.verification_url@,
        c.deep_view().user_code == c.user_code@,
        c.deep_view().handle == c.handle@,
        c.deep_view().expires_in_secs == c.expires_in_secs,
{
}

} // verus!
