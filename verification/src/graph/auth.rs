//! Signing in at the Microsoft identity platform: device codes, tokens, and
//! their refresh.

use vstd::prelude::*;
use crate::graph::config::Config;
use crate::plugin::{AuthChallenge, AuthChallengeView, AuthPollResult, AuthPollResultView};
use crate::text;
use crate::text::{decimal, same_text};

verus! {

/// What the sources are allowed to read.
pub const SCOPES: &'static str = "Mail.Read Calendars.Read User.Read Chat.Read OnlineMeetings.Read OnlineMeetingTranscript.Read.All OnlineMeetingArtifact.Read.All Files.Read.All Sites.Read.All offline_access";

/// The tokens of a signed-in realm.
#[derive(Debug, PartialEq, Eq)]
pub struct TokenCache {
    pub access_token: String,
    pub refresh_token: String,
}

#[verifier::ext_equal]
pub struct TokenCacheView {
    pub access_token: Seq<char>,
    pub refresh_token: Seq<char>,
}

impl DeepView for TokenCache {
    type V = TokenCacheView;

    open spec fn deep_view(&self) -> TokenCacheView {
        TokenCacheView { access_token: self.access_token@, refresh_token: self.refresh_token@ }
    }
}

/// The reply to a request for a device code.
#[derive(Debug, PartialEq, Eq)]
pub struct DeviceCode {
    pub device_code: String,
    pub user_code: String,
    pub verification_uri: String,
    /// Seconds between two questions.
    pub interval: u64,
    /// Seconds until the code expires.
    pub expires_in: i64,
    pub message: String,
}

/// What the owner has to do to sign in.
#[derive(Debug, PartialEq, Eq)]
pub struct DeviceBegin {
    pub device_code: String,
    pub user_code: String,
    pub verification_uri: String,
    pub expires_in_secs: u64,
}

/// How long a code is good for: a negative time is none.
pub open spec fn lifetime(expires_in: i64) -> u64 {
    if expires_in < 0 {
        0
    } else {
        expires_in as u64
    }
}

/// How long a code is good for, in seconds.
pub fn lifetime_secs(expires_in: i64) -> (r: u64)
    ensures
        r == lifetime(expires_in),
{
    if expires_in < 0 {
        0
    } else {
        expires_in as u64
    }
}

/// What the owner has to do to sign in, off the reply to a request for a device
/// code.
pub fn device_begin(dc: DeviceCode) -> (r: DeviceBegin)
    ensures
        r.device_code@ == dc.device_code@,
        r.user_code@ == dc.user_code@,
        r.verification_uri@ == dc.verification_uri@,
        r.expires_in_secs == lifetime(dc.expires_in),
{
    DeviceBegin {
        device_code: dc.device_code,
        user_code: dc.user_code,
        verification_uri: dc.verification_uri,
        expires_in_secs: lifetime_secs(dc.expires_in),
    }
}

/// The challenge that the engine shows.
pub fn challenge(b: DeviceBegin) -> (r: AuthChallenge)
    ensures
        r.deep_view() == (AuthChallengeView {
            verification_url: b.verification_uri@,
            user_code: b.user_code@,
            expires_in_secs: b.expires_in_secs,
            handle: b.device_code@,
        }),
{
    AuthChallenge {
        verification_url: b.verification_uri,
        user_code: b.user_code,
        expires_in_secs: b.expires_in_secs,
        handle: b.device_code,
    }
}

/// The form that asks for a device code.
pub fn device_code_form(cfg: &Config) -> (r: Vec<(String, String)>)
    ensures
        r.deep_view() == seq![("client_id"@, cfg.client_id@), ("scope"@, SCOPES@)],
{
    let mut r: Vec<(String, String)> = Vec::new();
    r.push(("client_id".to_string(), cfg.client_id.clone()));
    r.push(("scope".to_string(), SCOPES.to_string()));
    assert(r.deep_view() =~= seq![("client_id"@, cfg.client_id@), ("scope"@, SCOPES@)]);
    r
}

/// What a refused request for a device code is reported as.
pub fn device_code_failure(status: u16) -> (r: String)
    ensures
        r@ == "device-code request failed (HTTP "@ + text::decimal_text(status as nat)
            + ") — check client_id/tenant in the source's config (sources.ron)"@,
{
    "device-code request failed (HTTP ".to_string().concat(decimal(status as u64).as_str()).concat(
        ") — check client_id/tenant in the source's config (sources.ron)",
    )
}

/// The form that asks whether a sign-in is done.
pub fn token_form(cfg: &Config, device_code: &str) -> (r: Vec<(String, String)>)
    ensures
        r.deep_view() == seq![
            ("grant_type"@, "urn:ietf:params:oauth:grant-type:device_code"@),
            ("client_id"@, cfg.client_id@),
            ("device_code"@, device_code@),
        ],
{
    let mut r: Vec<(String, String)> = Vec::new();
    r.push(
        ("grant_type".to_string(), "urn:ietf:params:oauth:grant-type:device_code".to_string()),
    );
    r.push(("client_id".to_string(), cfg.client_id.clone()));
    r.push(("device_code".to_string(), device_code.to_string()));
    assert(r.deep_view() =~= seq![
        ("grant_type"@, "urn:ietf:params:oauth:grant-type:device_code"@),
        ("client_id"@, cfg.client_id@),
        ("device_code"@, device_code@),
    ]);
    r
}

/// The form that asks for a new access token.
pub fn refresh_form(cfg: &Config, cache: &TokenCache) -> (r: Vec<(String, String)>)
    ensures
        r.deep_view() == seq![
            ("grant_type"@, "refresh_token"@),
            ("client_id"@, cfg.client_id@),
            ("refresh_token"@, cache.refresh_token@),
            ("scope"@, SCOPES@),
        ],
{
    let mut r: Vec<(String, String)> = Vec::new();
    r.push(("grant_type".to_string(), "refresh_token".to_string()));
    r.push(("client_id".to_string(), cfg.client_id.clone()));
    r.push(("refresh_token".to_string(), cache.refresh_token.clone()));
    r.push(("scope".to_string(), SCOPES.to_string()));
    assert(r.deep_view() =~= seq![
        ("grant_type"@, "refresh_token"@),
        ("client_id"@, cfg.client_id@),
        ("refresh_token"@, cache.refresh_token@),
        ("scope"@, SCOPES@),
    ]);
    r
}

/// What the token endpoint replied.
pub enum TokenReply {
    /// Tokens.
    Granted { access_token: String, refresh_token: Option<String> },
    /// An error, by its code where it has one that can be read.
    Refused(Option<String>),
}

#[verifier::ext_equal]
pub enum TokenReplyView {
    Granted { access_token: Seq<char>, refresh_token: Option<Seq<char>> },
    Refused(Option<Seq<char>>),
}

impl DeepView for TokenReply {
    type V = TokenReplyView;

    open spec fn deep_view(&self) -> TokenReplyView {
        match self {
            TokenReply::Granted { access_token, refresh_token } => TokenReplyView::Granted {
                access_token: access_token@,
                refresh_token: refresh_token.deep_view(),
            },
            TokenReply::Refused(e) => TokenReplyView::Refused(e.deep_view()),
        }
    }
}

/// What to do about a pending sign-in.
pub enum SignIn {
    /// Ask again, after an extra pause of so many seconds.
    Again { pause_secs: u64 },
    /// Signed in: keep these tokens.
    Done(TokenCache),
    /// It failed.
    Failed(String),
}

#[verifier::ext_equal]
pub enum SignInView {
    Again { pause_secs: u64 },
    Done(TokenCacheView),
    Failed(Seq<char>),
}

impl DeepView for SignIn {
    type V = SignInView;

    open spec fn deep_view(&self) -> SignInView {
        match self {
            SignIn::Again { pause_secs } => SignInView::Again { pause_secs: *pause_secs },
            SignIn::Done(t) => SignInView::Done(t.deep_view()),
            SignIn::Failed(e) => SignInView::Failed(e@),
        }
    }
}

/// What to do about a pending sign-in, by what the token endpoint replied: tokens
/// end it, but only with a refresh token among them; two errors mean that it is
/// still pending.
pub open spec fn signed_in(reply: TokenReplyView) -> SignInView {
    match reply {
        TokenReplyView::Granted { access_token, refresh_token: Some(refresh) } => SignInView::Done(
            TokenCacheView { access_token, refresh_token: refresh },
        ),
        TokenReplyView::Granted { refresh_token: None, .. } => SignInView::Failed(
            "no refresh_token returned — is offline_access among the app's scopes?"@,
        ),
        TokenReplyView::Refused(Some(e)) => if e == "authorization_pending"@ {
            SignInView::Again { pause_secs: 0 }
        } else if e == "slow_down"@ {
            SignInView::Again { pause_secs: 5 }
        } else {
            SignInView::Failed("device login failed: "@ + e)
        },
        TokenReplyView::Refused(None) => SignInView::Failed(
            "device login failed (unrecognised response)"@,
        ),
    }
}

/// What to do about a pending sign-in, by what the token endpoint replied.
pub fn device_poll(reply: TokenReply) -> (r: SignIn)
    ensures
        r.deep_view() == signed_in(reply.deep_view()),
{
    match reply {
        TokenReply::Granted { access_token, refresh_token } => match refresh_token {
            Some(refresh) => SignIn::Done(TokenCache { access_token, refresh_token: refresh }),
            None => SignIn::Failed(
                "no refresh_token returned — is offline_access among the app's scopes?".to_string(),
            ),
        },
        TokenReply::Refused(error) => match error {
            Some(e) => if same_text(e.as_str(), "authorization_pending") {
                SignIn::Again { pause_secs: 0 }
            } else if same_text(e.as_str(), "slow_down") {
                SignIn::Again { pause_secs: 5 }
            } else {
                SignIn::Failed("device login failed: ".to_string().concat(e.as_str()))
            },
            None => SignIn::Failed("device login failed (unrecognised response)".to_string()),
        },
    }
}

/// What an expired code is reported as.
pub open spec fn expired_text() -> Seq<char> {
    "device code expired — run `kyyn source auth <name>` to sign in again"@
}

/// What to do about a pending sign-in: a code that expired ends it, whatever was
/// replied.
pub fn device_step(expired: bool, reply: TokenReply) -> (r: SignIn)
    ensures
        r.deep_view() == if expired {
            SignInView::Failed(expired_text())
        } else {
            signed_in(reply.deep_view())
        },
{
    if expired {
        SignIn::Failed(expired_failure())
    } else {
        device_poll(reply)
    }
}

/// What the engine is told of a pending sign-in.
pub fn poll_result(step: &SignIn) -> (r: AuthPollResult)
    ensures
        r.deep_view() == (match step.deep_view() {
            SignInView::Again { .. } => AuthPollResultView::Pending,
            SignInView::Done(_) => AuthPollResultView::Done("signed in"@),
            SignInView::Failed(e) => AuthPollResultView::Failed(e),
        }),
{
    match step {
        SignIn::Again { .. } => AuthPollResult::Pending,
        SignIn::Done(_) => AuthPollResult::Done("signed in".to_string()),
        SignIn::Failed(e) => AuthPollResult::Failed(e.clone()),
    }
}

/// What an expired code is reported as.
pub fn expired_failure() -> (r: String)
    ensures
        r@ == expired_text(),
{
    "device code expired — run `kyyn source auth <name>` to sign in again".to_string()
}

/// The tokens to refresh, where there are any.
pub fn require_cache(cache: Option<TokenCache>) -> (r: Result<TokenCache, String>)
    ensures
        match r {
            Ok(c) => cache == Some(c),
            Err(e) => cache is None && e@
                == "no token cache found — run `kyyn source auth <name>` first"@,
        },
{
    match cache {
        Some(c) => Ok(c),
        None => Err("no token cache found — run `kyyn source auth <name>` first".to_string()),
    }
}

/// What a token cache that cannot be read is reported as.
pub fn unreadable_cache(error: &str) -> (r: String)
    ensures
        r@ == "Warning: token cache unreadable ("@ + error@
            + "); sign in again with `kyyn source auth <name>`"@,
{
    "Warning: token cache unreadable (".to_string().concat(error).concat(
        "); sign in again with `kyyn source auth <name>`",
    )
}

/// What a refused refresh is reported as.
pub fn refresh_failure(status: u16) -> (r: String)
    ensures
        r@ == "token refresh failed (HTTP "@ + text::decimal_text(status as nat)
            + ") — run `kyyn source auth <name>` to sign in again"@,
{
    "token refresh failed (HTTP ".to_string().concat(decimal(status as u64).as_str()).concat(
        ") — run `kyyn source auth <name>` to sign in again",
    )
}

/// The tokens after a refresh: the new access token, and the new refresh token
/// where one came, otherwise the one that was used.
pub open spec fn refreshed(
    cache: TokenCacheView,
    access_token: Seq<char>,
    refresh_token: Option<Seq<char>>,
) -> TokenCacheView {
    TokenCacheView {
        access_token,
        refresh_token: match refresh_token {
            Some(t) => t,
            None => cache.refresh_token,
        },
    }
}

/// The tokens after a refresh.
pub fn refresh_access(cache: TokenCache, access_token: String, refresh_token: Option<String>) -> (r:
    TokenCache)
    ensures
        r.deep_view() == refreshed(
            cache.deep_view(),
            access_token@,
            refresh_token.deep_view(),
        ),
{
    TokenCache {
        access_token,
        refresh_token: match refresh_token {
            Some(t) => t,
            None => cache.refresh_token,
        },
    }
}

/// A sign-in ends for good only with tokens that can be refreshed, and a refresh
/// never loses the ability to refresh again: a refresh token of some length stays
/// one, unless the provider itself replaces it.
pub proof fn law_a_realm_stays_refreshable(
    cache: TokenCacheView,
    access_token: Seq<char>,
    refresh_token: Option<Seq<char>>,
)
    ensures
        refresh_token is None ==> refreshed(cache, access_token, refresh_token).refresh_token
            == cache.refresh_token,
        refresh_token matches Some(t) ==> refreshed(
            cache,
            access_token,
            refresh_token,
        ).refresh_token == t,
        signed_in(
            TokenReplyView::Granted { access_token, refresh_token },
        ) is Done <==> refresh_token is Some,
{
}

/// A sign-in is done exactly where both tokens came, and both are then kept as they came;
/// it goes on exactly where the reply says that it is pending or asks to slow down, and
/// only the second costs a pause, of five seconds; any other error is told.
pub proof fn law_what_a_reply_makes_of_a_sign_in(
    access: Seq<char>,
    refresh: Option<Seq<char>>,
    error: Option<Seq<char>>,
)
    ensures
        refresh matches Some(t) ==> signed_in(
            TokenReplyView::Granted { access_token: access, refresh_token: refresh },
        ) == SignInView::Done(TokenCacheView { access_token: access, refresh_token: t }),
        refresh is None ==> signed_in(
            TokenReplyView::Granted { access_token: access, refresh_token: refresh },
        ) is Failed,
        signed_in(TokenReplyView::Refused(error)) !is Done,
        signed_in(TokenReplyView::Refused(error)) is Again <==> error == Some(
            "authorization_pending"@,
        ) || error == Some("slow_down"@),
        signed_in(TokenReplyView::Refused(Some("authorization_pending"@))) == (SignInView::Again {
            pause_secs: 0,
        }),
        signed_in(TokenReplyView::Refused(Some("slow_down"@))) == (SignInView::Again {
            pause_secs: 5,
        }),
        error matches Some(e) ==> (signed_in(TokenReplyView::Refused(error)) matches SignInView::Failed(
            m,
        ) ==> m == "device login failed: "@ + e),
{
    reveal_strlit("authorization_pending");
    reveal_strlit("slow_down");
    assert("authorization_pending"@.len() != "slow_down"@.len());
}

/// A refresh brings the new access token, whatever else came.
pub proof fn law_a_refresh_brings_the_new_token(
    cache: TokenCacheView,
    access_token: Seq<char>,
    refresh_token: Option<Seq<char>>,
)
    ensures
        refreshed(cache, access_token, refresh_token).access_token == access_token,
{
}

/// A code is good for as many seconds as the reply says, and for none where it says less
/// than none.
pub proof fn law_a_code_lives_as_long_as_it_says(expires_in: i64)
    ensures
        expires_in >= 0 ==> lifetime(expires_in) == expires_in,
        expires_in < 0 ==> lifetime(expires_in) == 0,
{
}

/// What is stated of tokens is stated of their own fields.
pub proof fn law_tokens_are_their_fields(t: TokenCache)
    ensures
        t.deep_view().access_token == t.access_token@,
        t.deep_view().refresh_token == t.refresh_token@,
{
}

} // verus!
