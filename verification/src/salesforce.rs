//! `salesforce`: the records of a SOQL query as a source.
//!
//! Each record is one item. The bundle file is storage; the record's own
//! identifier is its identity, and the digest of its content its version.

use vstd::prelude::*;
use vstd::utf8::*;
use crate::digest;
use crate::digest::sha256_hex;
use crate::document;
use crate::document::{
    one_text, read_document, shape_config, take_text, Document, DocumentView, Kind, Shape,
    ShapeView,
};
use crate::graph::urls;
use crate::graph::urls::percent_encode;
use crate::json;
use crate::json::{compact_json, elements_at, member_at, string_at};
use crate::plugin;
use crate::plugin::{
    AuthChallenge, AuthChallengeView, AuthPollResult, AuthPollResultView, AuthStatus,
    AuthStatusView, Describe, DescribeView, FetchResult, FetchResultView, FetchStyle, Item,
    ItemView, RunSpec,
};
use crate::text;
use crate::text::{
    chars_of, decimal, eq_ignore_case, find_char, has_prefix, is_bare_token, is_text, same_text,
    skip_chars, take_chars, text_between, trim,
};
use crate::textmap::TextMap;

verus! {

/// The source that runs a SOQL query.
pub struct SalesforcePlugin;

/// The configuration of one such source.
#[derive(Debug, PartialEq, Eq)]
pub struct Config {
    /// The address of the organization.
    pub instance_url: String,
    /// The consumer key of the connected app.
    pub client_id: String,
    /// The query whose records are fetched.
    pub query: String,
    /// The kind of the items, `sf-record` by default.
    pub kind: String,
    /// The version of the interface, `v62.0` by default.
    pub api_version: String,
    /// The field with the identity of a record, `Id` by default.
    pub id_field: String,
}

#[verifier::ext_equal]
pub struct ConfigView {
    pub instance_url: Seq<char>,
    pub client_id: Seq<char>,
    pub query: Seq<char>,
    pub kind: Seq<char>,
    pub api_version: Seq<char>,
    pub id_field: Seq<char>,
}

impl DeepView for Config {
    type V = ConfigView;

    open spec fn deep_view(&self) -> ConfigView {
        ConfigView {
            instance_url: self.instance_url@,
            client_id: self.client_id@,
            query: self.query@,
            kind: self.kind@,
            api_version: self.api_version@,
            id_field: self.id_field@,
        }
    }
}

/// The fields of the configuration.
pub open spec fn config_shape() -> ShapeView {
    ShapeView {
        title: "Config"@,
        names: seq![
            "instance_url"@,
            "client_id"@,
            "query"@,
            "kind"@,
            "api_version"@,
            "id_field"@,
        ],
        kinds: seq![Kind::Text, Kind::Text, Kind::Text, Kind::Text, Kind::Text, Kind::Text],
        required: 3,
    }
}

/// What a parsed configuration means.
pub open spec fn config_in(parsed: DocumentView) -> Result<ConfigView, Seq<char>> {
    match document::shaped(
        parsed,
        config_shape(),
        "salesforce config shape (instance_url, client_id, query; optional kind, api_version, id_field): "@,
    ) {
        Err(e) => Err(e),
        Ok(slots) => Ok(
            ConfigView {
                instance_url: document::text_or(slots, 0, Seq::empty()),
                client_id: document::text_or(slots, 1, Seq::empty()),
                query: document::text_or(slots, 2, Seq::empty()),
                kind: document::text_or(slots, 3, "sf-record"@),
                api_version: document::text_or(slots, 4, "v62.0"@),
                id_field: document::text_or(slots, 5, "Id"@),
            },
        ),
    }
}

/// What a configuration text means.
pub open spec fn config_of(text: Seq<char>) -> Result<ConfigView, Seq<char>> {
    match document::document_of(text) {
        Err(e) => Err("salesforce config: "@ + e),
        Ok(parsed) => config_in(parsed),
    }
}

pub open spec fn config_result(r: Result<Config, String>) -> Result<ConfigView, Seq<char>> {
    match r {
        Ok(c) => Ok(c.deep_view()),
        Err(e) => Err(e@),
    }
}

/// The configuration that a parsed one is.
pub fn config_from(parsed: &Document) -> (r: Result<Config, String>)
    ensures
        config_result(r) == config_in(parsed.deep_view()),
        document::tells_unknown(config_shape(), parsed.deep_view(), document::refusal(r)),
{
    let mut kinds: Vec<Kind> = Vec::new();
    kinds.push(Kind::Text);
    kinds.push(Kind::Text);
    kinds.push(Kind::Text);
    kinds.push(Kind::Text);
    kinds.push(Kind::Text);
    kinds.push(Kind::Text);
    let shape = Shape {
        title: "Config",
        names: &["instance_url", "client_id", "query", "kind", "api_version", "id_field"],
        kinds,
        required: 3,
    };
    assert(shape.names.deep_view() =~= config_shape().names);
    assert(shape.kinds@ =~= config_shape().kinds);
    match shape_config(
        parsed,
        &shape,
        "salesforce config shape (instance_url, client_id, query; optional kind, api_version, id_field): ",
    ) {
        Err(e) => Err(e),
        Ok(slots) => {
            let empty = String::new();
            assert(empty@ =~= Seq::<char>::empty());
            Ok(
                Config {
                    instance_url: take_text(&slots, 0, empty.as_str()),
                    client_id: take_text(&slots, 1, empty.as_str()),
                    query: take_text(&slots, 2, empty.as_str()),
                    kind: take_text(&slots, 3, "sf-record"),
                    api_version: take_text(&slots, 4, "v62.0"),
                    id_field: take_text(&slots, 5, "Id"),
                },
            )
        },
    }
}

/// Reads a configuration. Unknown keys are errors.
pub fn parse_config(text: &str) -> (r: Result<Config, String>)
    ensures
        config_result(r) == config_of(text@),
        document::tells_unknown_in(config_shape(), text@, document::refusal(r)),
{
    match read_document(text) {
        Err(e) => Err("salesforce config: ".to_string().concat(e.as_str())),
        Ok(parsed) => config_from(&parsed),
    }
}

/// Whether a query is a selection, white space before it and the case of its
/// letters aside.
pub open spec fn is_select(query: Seq<char>) -> bool {
    text::same_ignoring_ascii_case(text::first_chars(text::trimmed(query), 6), "select"@)
}

/// What is wrong with a configuration, if anything.
pub open spec fn config_error(c: ConfigView) -> Option<Seq<char>> {
    if !text::starts_with(c.instance_url, "https://"@) {
        Some("instance_url must be an https:// URL (the org's My Domain)"@)
    } else if text::trimmed(c.client_id).len() == 0 {
        Some("client_id (the Connected App's consumer key) is required"@)
    } else if !is_select(c.query) {
        Some("query must be a SOQL SELECT"@)
    } else if !text::bare_token(c.kind, false) {
        Some("kind '"@ + c.kind + "' must be a bare token"@)
    } else {
        None
    }
}

/// What is wrong with a configuration, if anything.
pub fn find_fault(c: &Config) -> (r: Option<String>)
    ensures
        r.deep_view() == config_error(c.deep_view()),
{
    if !has_prefix(c.instance_url.as_str(), "https://") {
        return Some("instance_url must be an https:// URL (the org's My Domain)".to_string());
    }
    if trim(c.client_id.as_str()).as_str().unicode_len() == 0 {
        return Some("client_id (the Connected App's consumer key) is required".to_string());
    }
    let verb = take_chars(trim(c.query.as_str()).as_str(), 6);
    if !eq_ignore_case(verb.as_str(), "select") {
        return Some("query must be a SOQL SELECT".to_string());
    }
    if !is_bare_token(c.kind.as_str(), false) {
        return Some(
            "kind '".to_string().concat(c.kind.as_str()).concat("' must be a bare token"),
        );
    }
    None
}

/// A text without a prefix, however often it begins with it.
pub open spec fn without_prefix(s: Seq<char>, prefix: Seq<char>) -> Seq<char>
    decreases s.len(),
{
    if prefix.len() > 0 && text::starts_with(s, prefix) {
        without_prefix(s.skip(prefix.len() as int), prefix)
    } else {
        s
    }
}

fn strip_prefix(s: &str, prefix: &str) -> (r: String)
    requires
        prefix@.len() > 0,
    ensures
        r@ == without_prefix(s@, prefix@),
{
    let mut rest = s.to_string();
    let n = prefix.unicode_len();
    while has_prefix(rest.as_str(), prefix)
        invariant
            n == prefix@.len(),
            n > 0,
            without_prefix(s@, prefix@) == without_prefix(rest@, prefix@),
        decreases rest@.len(),
    {
        let ghost before = rest@;
        rest = skip_chars(rest.as_str(), n);
        assert(rest@ =~= before.skip(n as int));
    }
    rest
}

/// The host of an address: what stands between its scheme and the next `/`.
pub open spec fn host(url: Seq<char>) -> Seq<char> {
    let rest = without_prefix(without_prefix(url, "https://"@), "http://"@);
    rest.take(text::index_of(rest, '/', 0))
}

/// The host of an address.
pub fn host_of(url: &str) -> (r: String)
    ensures
        r@ == host(url@),
{
    proof {
        reveal_strlit("https://");
        reveal_strlit("http://");
    }
    let rest = strip_prefix(strip_prefix(url, "https://").as_str(), "http://");
    let v = chars_of(rest.as_str());
    let end = find_char(&v, '/', 0);
    let r = text_between(&v, 0, end);
    assert(r@ =~= rest@.take(end as int));
    r
}

// Signing in.

/// The tokens of a signed-in source.
#[derive(Debug, PartialEq, Eq)]
pub struct StoredToken {
    pub access_token: String,
    pub refresh_token: Option<String>,
}

#[verifier::ext_equal]
pub struct StoredTokenView {
    pub access_token: Seq<char>,
    pub refresh_token: Option<Seq<char>>,
}

impl DeepView for StoredToken {
    type V = StoredTokenView;

    open spec fn deep_view(&self) -> StoredTokenView {
        StoredTokenView {
            access_token: self.access_token@,
            refresh_token: self.refresh_token.deep_view(),
        }
    }
}

fn form_of(a: (&str, &str), b: (&str, &str), c: (&str, &str)) -> (r: Vec<(String, String)>)
    ensures
        r.deep_view() == seq![(a.0@, a.1@), (b.0@, b.1@), (c.0@, c.1@)],
{
    let mut r: Vec<(String, String)> = Vec::new();
    r.push((a.0.to_string(), a.1.to_string()));
    r.push((b.0.to_string(), b.1.to_string()));
    r.push((c.0.to_string(), c.1.to_string()));
    assert(r.deep_view() =~= seq![(a.0@, a.1@), (b.0@, b.1@), (c.0@, c.1@)]);
    r
}

/// Where tokens and device codes are asked for.
pub fn token_url(c: &Config) -> (r: String)
    ensures
        r@ == c.instance_url@ + "/services/oauth2/token"@,
{
    c.instance_url.clone().concat("/services/oauth2/token")
}

/// The form that asks for a device code.
pub fn device_code_form(c: &Config) -> (r: Vec<(String, String)>)
    ensures
        r.deep_view() == seq![
            ("response_type"@, "device_code"@),
            ("client_id"@, c.client_id@),
            ("scope"@, "api refresh_token"@),
        ],
{
    form_of(
        ("response_type", "device_code"),
        ("client_id", c.client_id.as_str()),
        ("scope", "api refresh_token"),
    )
}

/// The form that asks whether a sign-in is done.
pub fn poll_form(c: &Config, handle: &str) -> (r: Vec<(String, String)>)
    ensures
        r.deep_view() == seq![
            ("grant_type"@, "device"@),
            ("client_id"@, c.client_id@),
            ("code"@, handle@),
        ],
{
    form_of(("grant_type", "device"), ("client_id", c.client_id.as_str()), ("code", handle))
}

/// The form that asks for a new access token.
pub fn refresh_form(c: &Config, refresh: &str) -> (r: Vec<(String, String)>)
    ensures
        r.deep_view() == seq![
            ("grant_type"@, "refresh_token"@),
            ("client_id"@, c.client_id@),
            ("refresh_token"@, refresh@),
        ],
{
    form_of(
        ("grant_type", "refresh_token"),
        ("client_id", c.client_id.as_str()),
        ("refresh_token", refresh),
    )
}

/// The message for a reply that is no JSON.
pub open spec fn decode_error() -> Seq<char> {
    "error decoding response body"@
}

/// What the owner has to do to sign in, by the fields of a reply to a request for
/// a device code; `all` is the whole reply.
pub open spec fn challenge_from(
    all: Seq<char>,
    url: Option<Seq<char>>,
    code: Option<Seq<char>>,
    handle: Option<Seq<char>>,
) -> Result<AuthChallengeView, Seq<char>> {
    match (url, code, handle) {
        (None, _, _) => Err("device flow refused: "@ + all),
        (_, None, _) => Err("no user_code"@),
        (_, _, None) => Err("no device_code"@),
        (Some(url), Some(code), Some(handle)) => Ok(
            AuthChallengeView {
                verification_url: url,
                user_code: code,
                expires_in_secs: 600,
                handle,
            },
        ),
    }
}

/// What the owner has to do to sign in, off the reply to a request for a device
/// code.
pub open spec fn challenge(reply: Seq<u8>) -> Result<AuthChallengeView, Seq<char>> {
    match json::json_text(reply) {
        None => Err(decode_error()),
        Some(all) => challenge_from(
            all,
            json::json_string_at(reply, "verification_uri"@),
            json::json_string_at(reply, "user_code"@),
            json::json_string_at(reply, "device_code"@),
        ),
    }
}

pub open spec fn challenge_result(r: Result<AuthChallenge, String>) -> Result<
    AuthChallengeView,
    Seq<char>,
> {
    match r {
        Ok(c) => Ok(c.deep_view()),
        Err(e) => Err(e@),
    }
}

/// What the owner has to do to sign in, by the fields of a reply.
pub fn make_challenge(
    all: &str,
    url: Option<String>,
    code: Option<String>,
    handle: Option<String>,
) -> (r: Result<AuthChallenge, String>)
    ensures
        challenge_result(r) == challenge_from(
            all@,
            url.deep_view(),
            code.deep_view(),
            handle.deep_view(),
        ),
{
    match url {
        None => Err("device flow refused: ".to_string().concat(all)),
        Some(url) => match code {
            None => Err("no user_code".to_string()),
            Some(code) => match handle {
                None => Err("no device_code".to_string()),
                Some(handle) => Ok(
                    AuthChallenge {
                        verification_url: url,
                        user_code: code,
                        expires_in_secs: 600,
                        handle,
                    },
                ),
            },
        },
    }
}

/// What the owner has to do to sign in.
pub fn challenge_of(reply: &[u8]) -> (r: Result<AuthChallenge, String>)
    ensures
        challenge_result(r) == challenge(reply@),
{
    match compact_json(reply) {
        Some(all) => make_challenge(
            all.as_str(),
            string_at(reply, "verification_uri"),
            string_at(reply, "user_code"),
            string_at(reply, "device_code"),
        ),
        None => Err("error decoding response body".to_string()),
    }
}

/// What a question about a pending sign-in brought: tokens to be stored, or
/// something to be reported.
pub enum Poll {
    SignedIn(StoredToken),
    Report(AuthPollResult),
}

#[verifier::ext_equal]
pub enum PollView {
    SignedIn(StoredTokenView),
    Report(AuthPollResultView),
}

impl DeepView for Poll {
    type V = PollView;

    open spec fn deep_view(&self) -> PollView {
        match self {
            Poll::SignedIn(t) => PollView::SignedIn(t.deep_view()),
            Poll::Report(p) => PollView::Report(p.deep_view()),
        }
    }
}

/// What a question about a pending sign-in brought, by the fields of the reply;
/// `all` is the whole reply.
pub open spec fn polled_from(
    all: Seq<char>,
    token: Option<Seq<char>>,
    refresh: Option<Seq<char>>,
    error: Option<Seq<char>>,
    description: Option<Seq<char>>,
) -> PollView {
    match token {
        Some(token) => PollView::SignedIn(
            StoredTokenView { access_token: token, refresh_token: refresh },
        ),
        None => PollView::Report(
            match error {
                Some(e) => if e == "authorization_pending"@ || e == "slow_down"@ {
                    AuthPollResultView::Pending
                } else {
                    AuthPollResultView::Failed(
                        e + ": "@ + match description {
                            Some(d) => d,
                            None => Seq::empty(),
                        },
                    )
                },
                None => AuthPollResultView::Failed("unexpected reply: "@ + all),
            },
        ),
    }
}

/// What a question about a pending sign-in brought.
pub open spec fn polled(reply: Seq<u8>) -> Result<PollView, Seq<char>> {
    match json::json_text(reply) {
        None => Err(decode_error()),
        Some(all) => Ok(
            polled_from(
                all,
                json::json_string_at(reply, "access_token"@),
                json::json_string_at(reply, "refresh_token"@),
                json::json_string_at(reply, "error"@),
                json::json_string_at(reply, "error_description"@),
            ),
        ),
    }
}

/// What a question about a pending sign-in brought, by the fields of the reply.
pub fn make_poll(
    all: &str,
    token: Option<String>,
    refresh: Option<String>,
    error: Option<String>,
    description: Option<String>,
) -> (r: Poll)
    ensures
        r.deep_view() == polled_from(
            all@,
            token.deep_view(),
            refresh.deep_view(),
            error.deep_view(),
            description.deep_view(),
        ),
{
    if let Some(access_token) = token {
        return Poll::SignedIn(StoredToken { access_token, refresh_token: refresh });
    }
    if is_text(&error, "authorization_pending") || is_text(&error, "slow_down") {
        return Poll::Report(AuthPollResult::Pending);
    }
    Poll::Report(
        AuthPollResult::Failed(
            match error {
                Some(e) => {
                    let d = match description {
                        Some(d) => d,
                        None => {
                            let empty = String::new();
                            assert(empty@ =~= Seq::<char>::empty());
                            empty
                        },
                    };
                    e.concat(": ").concat(d.as_str())
                },
                None => "unexpected reply: ".to_string().concat(all),
            },
        ),
    )
}

/// What a question about a pending sign-in brought.
pub fn poll_outcome(reply: &[u8]) -> (r: Result<Poll, String>)
    ensures
        (match r {
            Ok(p) => Ok(p.deep_view()),
            Err(e) => Err(e@),
        }) == polled(reply@),
{
    match compact_json(reply) {
        Some(all) => Ok(
            make_poll(
                all.as_str(),
                string_at(reply, "access_token"),
                string_at(reply, "refresh_token"),
                string_at(reply, "error"),
                string_at(reply, "error_description"),
            ),
        ),
        None => Err("error decoding response body".to_string()),
    }
}

/// The refresh token with which an expired access token is replaced.
pub fn refresh_with(stored: &StoredToken) -> (r: Result<String, String>)
    ensures
        document::result_view(r) == (match stored.deep_view().refresh_token {
            Some(t) => Ok(t),
            None => Err("token expired and no refresh token — sign in again"@),
        }),
{
    match &stored.refresh_token {
        Some(t) => Ok(t.clone()),
        None => Err("token expired and no refresh token — sign in again".to_string()),
    }
}

/// The tokens after a refresh: the new access token, and the refresh token as it
/// was; `all` is the whole reply.
pub open spec fn refreshed_from(all: Seq<char>, token: Option<Seq<char>>, refresh: Seq<char>) -> Result<
    StoredTokenView,
    Seq<char>,
> {
    match token {
        Some(token) => Ok(
            StoredTokenView { access_token: token, refresh_token: Some(refresh) },
        ),
        None => Err("token refresh failed — sign in again ("@ + all + ")"@),
    }
}

pub open spec fn token_result(r: Result<StoredToken, String>) -> Result<
    StoredTokenView,
    Seq<char>,
> {
    match r {
        Ok(t) => Ok(t.deep_view()),
        Err(e) => Err(e@),
    }
}

/// The tokens after a refresh, by the fields of the reply.
pub fn make_refreshed(all: &str, token: Option<String>, refresh: String) -> (r: Result<
    StoredToken,
    String,
>)
    ensures
        token_result(r) == refreshed_from(all@, token.deep_view(), refresh@),
{
    match token {
        Some(access_token) => Ok(StoredToken { access_token, refresh_token: Some(refresh) }),
        None => Err(
            "token refresh failed — sign in again (".to_string().concat(all).concat(")"),
        ),
    }
}

/// The tokens after a refresh.
pub fn refreshed_token(reply: &[u8], refresh: String) -> (r: Result<StoredToken, String>)
    ensures
        token_result(r) == (match json::json_text(reply@) {
            None => Err(decode_error()),
            Some(all) => refreshed_from(
                all,
                json::json_string_at(reply@, "access_token"@),
                refresh@,
            ),
        }),
{
    match compact_json(reply) {
        Some(all) => make_refreshed(all.as_str(), string_at(reply, "access_token"), refresh),
        None => Err("error decoding response body".to_string()),
    }
}

// The query.

/// How many pages of records are read at most.
pub const MAX_PAGES: u32 = 500;

/// What to do about the answer to a request for a page.
#[derive(Clone, Copy, Debug, PartialEq, Eq, Structural)]
pub enum Answer {
    /// The access token expired: replace it and ask again.
    Refresh,
    /// Read the page.
    Read,
    /// Fail.
    Fail,
}

/// A query in progress.
pub struct SoqlRun {
    instance_url: String,
    kind: String,
    id_field: String,
    next: Option<String>,
    refreshed: bool,
    pages: u32,
    records: Vec<String>,
}

#[verifier::ext_equal]
pub struct SoqlRunView {
    pub instance_url: Seq<char>,
    pub kind: Seq<char>,
    pub id_field: Seq<char>,
    /// The page to be read next.
    pub next: Option<Seq<char>>,
    /// Whether the access token was replaced in this run.
    pub refreshed: bool,
    pub pages: nat,
    /// The records of the pages read, each in its compact form, in order.
    pub records: Seq<Seq<char>>,
}

impl View for SoqlRun {
    type V = SoqlRunView;

    closed spec fn view(&self) -> SoqlRunView {
        SoqlRunView {
            instance_url: self.instance_url@,
            kind: self.kind@,
            id_field: self.id_field@,
            next: self.next.deep_view(),
            refreshed: self.refreshed,
            pages: self.pages as nat,
            records: self.records.deep_view(),
        }
    }
}

/// The address of the first page.
pub open spec fn query_address(c: ConfigView) -> Seq<char> {
    c.instance_url + "/services/data/"@ + c.api_version + "/query?q="@ + urls::percent_encoded(
        c.query,
    )
}

/// The item of the `n`-th record, by its identity, its name, the type of its object
/// and the digest of its content.
pub open spec fn item_from(
    kind: Seq<char>,
    id: Option<Seq<char>>,
    name: Option<Seq<char>>,
    sobject: Option<Seq<char>>,
    hash: Seq<char>,
    n: nat,
) -> ItemView {
    let id = match id {
        Some(id) => id,
        None => "row-"@ + text::decimal_text(n),
    };
    ItemView {
        id,
        kind,
        version: None,
        content_hash: hash,
        files: seq!["records.json"@],
        file_hashes: Map::empty(),
        locator: Some(id),
        meta: match sobject {
            Some(t) => t,
            None => "record"@,
        } + " · "@ + match name {
            Some(s) => s,
            None => Seq::empty(),
        },
    }
}

/// The item of the `n`-th record.
pub open spec fn record_item(kind: Seq<char>, id_field: Seq<char>, record: Seq<char>, n: nat) -> ItemView {
    let body = encode_utf8(record);
    item_from(
        kind,
        json::json_string_at(body, id_field),
        json::json_string_at(body, "Name"@),
        match json::json_member_at(body, "attributes"@) {
            Some(m) => json::json_string_at(encode_utf8(m), "type"@),
            None => None,
        },
        digest::sha256_text(body),
        n,
    )
}

impl SoqlRunView {
    /// What to do about an answer, by its status.
    pub open spec fn answered(self, status: u16) -> Answer {
        if status == 401 && !self.refreshed {
            Answer::Refresh
        } else if 200 <= status < 300 {
            Answer::Read
        } else {
            Answer::Fail
        }
    }

    /// After an answer of this status.
    pub open spec fn judged(self, status: u16) -> SoqlRunView {
        SoqlRunView { refreshed: self.refreshed || self.answered(status) is Refresh, ..self }
    }

    /// After one more page, of these records and with this link to the next.
    pub open spec fn turned(self, batch: Option<Seq<Seq<char>>>, link: Option<Seq<char>>) -> SoqlRunView {
        SoqlRunView {
            next: match link {
                Some(path) => Some(self.instance_url + path),
                None => None,
            },
            pages: self.pages + 1,
            records: match batch {
                Some(batch) => self.records + batch,
                None => self.records,
            },
            ..self
        }
    }

    /// After one more page.
    pub open spec fn after(self, page: Seq<u8>) -> SoqlRunView {
        self.turned(
            json::json_elements_at(page, "records"@),
            json::json_string_at(page, "nextRecordsUrl"@),
        )
    }

    /// The result of the run: one item per record.
    pub open spec fn result(self) -> FetchResultView {
        FetchResultView {
            items: Seq::new(
                self.records.len(),
                |n: int| record_item(self.kind, self.id_field, self.records[n], n as nat),
            ),
            notes: text::decimal_text(self.records.len()) + " record(s) from SOQL"@,
            next_checkpoint: None,
        }
    }
}

/// The item of the `n`-th record, by what was read off it.
pub fn make_item(
    kind: &str,
    id: Option<String>,
    name: Option<String>,
    sobject: Option<String>,
    hash: String,
    n: usize,
) -> (item: Item)
    ensures
        item.deep_view() == item_from(
            kind@,
            id.deep_view(),
            name.deep_view(),
            sobject.deep_view(),
            hash@,
            n as nat,
        ),
{
    let id = match id {
        Some(id) => id,
        None => "row-".to_string().concat(decimal(n as u64).as_str()),
    };
    let name = match name {
        Some(s) => s,
        None => {
            let empty = String::new();
            assert(empty@ =~= Seq::<char>::empty());
            empty
        },
    };
    let sobject = match sobject {
        Some(t) => t,
        None => "record".to_string(),
    };
    Item {
        id: id.clone(),
        kind: kind.to_string(),
        version: None,
        content_hash: hash,
        files: one_text("records.json"),
        file_hashes: TextMap::new(),
        locator: Some(id),
        meta: sobject.concat(" · ").concat(name.as_str()),
    }
}

fn read_item(kind: &str, id_field: &str, record: &str, n: usize) -> (item: Item)
    ensures
        item.deep_view() == record_item(kind@, id_field@, record@, n as nat),
{
    let body = record.as_bytes();
    let sobject = match member_at(body, "attributes") {
        Some(m) => string_at(m.as_str().as_bytes(), "type"),
        None => None,
    };
    make_item(
        kind,
        string_at(body, id_field),
        string_at(body, "Name"),
        sobject,
        sha256_hex(body),
        n,
    )
}

impl SoqlRun {
    #[verifier::type_invariant]
    spec fn well_formed(self) -> bool {
        self.pages < MAX_PAGES
    }

    /// A query before its first page.
    pub fn begin(c: &Config) -> (r: SoqlRun)
        ensures
            r@ == (SoqlRunView {
                instance_url: c.instance_url@,
                kind: c.kind@,
                id_field: c.id_field@,
                next: Some(query_address(c.deep_view())),
                refreshed: false,
                pages: 0,
                records: Seq::empty(),
            }),
            r@ == opening(c.deep_view()),
    {
        let first = c.instance_url.clone().concat("/services/data/").concat(
            c.api_version.as_str(),
        ).concat("/query?q=").concat(percent_encode(c.query.as_str()).as_str());
        let r = SoqlRun {
            instance_url: c.instance_url.clone(),
            kind: c.kind.clone(),
            id_field: c.id_field.clone(),
            next: Some(first),
            refreshed: false,
            pages: 0,
            records: Vec::new(),
        };
        assert(r.records.deep_view() =~= Seq::<Seq<char>>::empty());
        r
    }

    /// The page to be read next.
    pub fn next_url(&self) -> (r: Option<&String>)
        ensures
            match r {
                Some(u) => self@.next == Some(u@),
                None => self@.next is None,
            },
    {
        self.next.as_ref()
    }

    /// What to do about an answer, by its status. The access token is replaced once
    /// per run, and the same page then asked for again.
    pub fn judge(&mut self, status: u16) -> (r: Answer)
        ensures
            r == old(self)@.answered(status),
            final(self)@ == old(self)@.judged(status),
    {
        proof {
            use_type_invariant(&*self);
        }
        if status == 401 && !self.refreshed {
            self.refreshed = true;
            Answer::Refresh
        } else if 200 <= status && status < 300 {
            Answer::Read
        } else {
            Answer::Fail
        }
    }

    /// What a failed query is reported as.
    pub fn failure(status: &str, body: &str) -> (r: String)
        ensures
            r@ == "SOQL query failed (HTTP "@ + status@ + "): "@ + body@,
    {
        "SOQL query failed (HTTP ".to_string().concat(status).concat("): ").concat(body)
    }

    /// Takes the records of a page and the link to the next. Five hundred pages are
    /// too many.
    pub fn turn(self, batch: Option<Vec<String>>, link: Option<String>) -> (r: Result<
        SoqlRun,
        String,
    >)
        ensures
            self@.pages < MAX_PAGES,
            match r {
                Ok(s) => self@.pages + 1 < MAX_PAGES && s@ == self@.turned(
                    batch.deep_view(),
                    link.deep_view(),
                ),
                Err(e) => self@.pages + 1 == MAX_PAGES && e@
                    == "paging exceeded 500 pages — narrow the query"@,
            },
    {
        proof {
            use_type_invariant(&self);
        }
        if self.pages + 1 >= MAX_PAGES {
            return Err("paging exceeded 500 pages — narrow the query".to_string());
        }
        let mut records = self.records;
        let ghost before = records.deep_view();
        if let Some(more) = batch {
            let ghost added = more.deep_view();
            let mut rest = more;
            records.append(&mut rest);
            assert(records.deep_view() =~= before + added);
        }
        let next = match link {
            Some(path) => Some(self.instance_url.clone().concat(path.as_str())),
            None => None,
        };
        Ok(
            SoqlRun {
                instance_url: self.instance_url,
                kind: self.kind,
                id_field: self.id_field,
                next,
                refreshed: self.refreshed,
                pages: self.pages + 1,
                records,
            },
        )
    }

    /// Takes a page.
    pub fn page(self, body: &[u8]) -> (r: Result<SoqlRun, String>)
        ensures
            self@.pages < MAX_PAGES,
            match r {
                Ok(s) => json::json_text(body@) is Some && self@.pages + 1 < MAX_PAGES && s@
                    == self@.after(body@),
                Err(e) => if json::json_text(body@) is None {
                    e@ == decode_error()
                } else {
                    self@.pages + 1 == MAX_PAGES && e@
                        == "paging exceeded 500 pages — narrow the query"@
                },
            },
    {
        proof {
            use_type_invariant(&self);
        }
        if compact_json(body).is_none() {
            return Err("error decoding response body".to_string());
        }
        self.turn(elements_at(body, "records"), string_at(body, "nextRecordsUrl"))
    }

    /// What is said on the way.
    pub fn progress(&self) -> (r: String)
        ensures
            r@ == if self@.next is Some {
                text::decimal_text(self@.records.len()) + " records ("@ + text::decimal_text(
                    self@.pages,
                ) + " pages)…"@
            } else {
                text::decimal_text(self@.records.len()) + " records returned"@
            },
    {
        let count = decimal(self.records.len() as u64);
        if self.next.is_some() {
            count.concat(" records (").concat(decimal(self.pages as u64).as_str()).concat(
                " pages)…",
            )
        } else {
            count.concat(" records returned")
        }
    }

    /// The records of all pages, each in its compact form.
    pub fn records(&self) -> (r: &Vec<String>)
        ensures
            r.deep_view() == self@.records,
    {
        &self.records
    }

    /// Whether these are the records of all pages, in order: what is stored has to
    /// hold the records whose digests the items carry.
    pub fn is_bundle(&self, texts: &Vec<String>) -> (r: bool)
        ensures
            r == (texts.deep_view() == self@.records),
    {
        let ghost given = texts.deep_view();
        let ghost wanted = self@.records;
        if texts.len() != self.records.len() {
            assert(given.len() != wanted.len());
            return false;
        }
        let mut i: usize = 0;
        while i < texts.len()
            invariant
                i <= texts.len(),
                texts.len() == self.records.len(),
                given == texts.deep_view(),
                wanted == self.records.deep_view(),
                wanted == self@.records,
                forall|j: int| 0 <= j < i ==> #[trigger] given[j] == wanted[j],
            decreases texts.len() - i,
        {
            assert(given[i as int] == texts@[i as int]@);
            assert(wanted[i as int] == self.records@[i as int]@);
            if !same_text(texts[i].as_str(), self.records[i].as_str()) {
                return false;
            }
            i += 1;
        }
        assert(given =~= wanted);
        true
    }

    /// The result of the run.
    pub fn finish(self) -> (r: FetchResult)
        ensures
            r.deep_view() == self@.result(),
    {
        let mut items: Vec<Item> = Vec::new();
        let mut n: usize = 0;
        let ghost all = self@.result().items;
        assert(items.deep_view() =~= all.take(0));
        while n < self.records.len()
            invariant
                n <= self.records.len(),
                all == self@.result().items,
                items.deep_view() == all.take(n as int),
            decreases self.records.len() - n,
        {
            let ghost before = items.deep_view();
            assert(self@.records[n as int] == self.records@[n as int]@);
            let item = read_item(
                self.kind.as_str(),
                self.id_field.as_str(),
                self.records[n].as_str(),
                n,
            );
            items.push(item);
            assert(items.deep_view() =~= before.push(item.deep_view()));
            n += 1;
            assert(items.deep_view() =~= all.take(n as int));
        }
        assert(all.take(n as int) =~= all);
        FetchResult {
            items,
            notes: decimal(self.records.len() as u64).concat(" record(s) from SOQL"),
            next_checkpoint: None,
        }
    }
}

/// The access token is replaced once per run at most: once it was, no answer
/// asks for it again.
pub proof fn law_one_refresh_per_run(run: SoqlRunView, first: u16, second: u16)
    ensures
        run.answered(first) is Refresh ==> run.judged(first).answered(second) !is Refresh,
        run.judged(first).next == run.next,
        run.judged(first).records == run.records,
{
}

/// Equal records are equal evidence: the version of an item is a function of its
/// record alone, and its place in the bundle matters only where the record has
/// no identity of its own.
pub proof fn law_a_record_is_its_content(
    kind: Seq<char>,
    id_field: Seq<char>,
    record: Seq<char>,
    n: nat,
    m: nat,
)
    ensures
        record_item(kind, id_field, record, n).content_hash == record_item(
            kind,
            id_field,
            record,
            m,
        ).content_hash,
        json::json_string_at(encode_utf8(record), id_field) is Some ==> record_item(
            kind,
            id_field,
            record,
            n,
        ) == record_item(kind, id_field, record, m),
{
}

/// After any page, the first or a later one, a page is still to be read exactly where
/// this one carries a link, at the address of the organization followed by that link;
/// the records of the page stand behind those before it, and nothing else changes.
pub proof fn law_every_link_is_followed(
    run: SoqlRunView,
    batch: Option<Seq<Seq<char>>>,
    link: Option<Seq<char>>,
)
    ensures
        run.turned(batch, link).next is Some <==> link is Some,
        link matches Some(path) ==> run.turned(batch, link).next == Some(
            run.instance_url + path,
        ),
        run.turned(batch, link).records.len() == run.records.len() + match batch {
            Some(records) => records.len() as int,
            None => 0,
        },
        forall|i: int|
            0 <= i < run.records.len() ==> #[trigger] run.turned(batch, link).records[i]
                == run.records[i],
        batch matches Some(records) ==> forall|i: int|
            0 <= i < records.len() ==> run.turned(batch, link).records[run.records.len() + i]
                == #[trigger] records[i],
        run.turned(batch, link).pages == run.pages + 1,
        run.turned(batch, link).instance_url == run.instance_url,
        run.turned(batch, link).kind == run.kind,
        run.turned(batch, link).id_field == run.id_field,
        run.turned(batch, link).refreshed == run.refreshed,
{
}

/// A run before its first page.
pub open spec fn opening(c: ConfigView) -> SoqlRunView {
    SoqlRunView {
        instance_url: c.instance_url,
        kind: c.kind,
        id_field: c.id_field,
        next: Some(query_address(c)),
        refreshed: false,
        pages: 0,
        records: Seq::empty(),
    }
}

/// A run begins at the first page of its query, with nothing read and its token not yet
/// replaced, and takes the kind, the identity field and the organization from its
/// configuration.
pub proof fn law_what_a_query_begins_with(c: ConfigView)
    ensures
        opening(c).next == Some(query_address(c)),
        opening(c).instance_url == c.instance_url,
        opening(c).kind == c.kind,
        opening(c).id_field == c.id_field,
        opening(c).records.len() == 0,
        opening(c).pages == 0,
        !opening(c).refreshed,
{
}

/// One page of an answer: its records, and the link to the next.
pub struct PageFact {
    pub records: Seq<Seq<char>>,
    pub link: Option<Seq<char>>,
}

/// A run after some further pages.
pub open spec fn read_through(run: SoqlRunView, pages: Seq<PageFact>) -> SoqlRunView
    decreases pages.len(),
{
    if pages.len() == 0 {
        run
    } else {
        read_through(run.turned(Some(pages[0].records), pages[0].link), pages.drop_first())
    }
}

/// An answer that spans several pages is read as a whole: the records of a run are those
/// of all its pages, page after page; where every page but the last carries a link, each
/// page is the one that the page before it links to, and the run is at its end exactly
/// where the last page carries none.
pub proof fn law_an_answer_is_all_its_pages(run: SoqlRunView, pages: Seq<PageFact>, k: int)
    requires
        pages.len() > 0,
        0 <= k < pages.len(),
    ensures
        read_through(run, pages).records == run.records + pages.map_values(
            |p: PageFact| p.records,
        ).flatten(),
        read_through(run, pages).next is None <==> pages.last().link is None,
        pages[k].link matches Some(path) ==> read_through(run, pages.take(k + 1)).next == Some(
            run.instance_url + path,
        ),
        read_through(run, pages).pages == run.pages + pages.len(),
        read_through(run, pages).instance_url == run.instance_url,
        read_through(run, pages).kind == run.kind,
        read_through(run, pages).id_field == run.id_field,
    decreases pages.len(),
{
    let more = pages.drop_first();
    let next = run.turned(Some(pages[0].records), pages[0].link);
    let batches = pages.map_values(|p: PageFact| p.records);
    let rest = more.map_values(|p: PageFact| p.records);
    assert(batches.drop_first() =~= rest);
    assert(batches.first() == pages[0].records);
    reveal_with_fuel(read_through, 2);
    let upto = pages.take(k + 1);
    assert(upto.drop_first() =~= more.take(k));
    if more.len() > 0 {
        law_an_answer_is_all_its_pages(next, more, if k > 0 {
            k - 1
        } else {
            0
        });
        assert(more.last() == pages.last());
        if k > 0 {
            assert(more[k - 1] == pages[k]);
        }
        assert(next.records + rest.flatten() =~= run.records + batches.flatten());
    } else {
        assert(rest =~= Seq::empty());
        assert(pages.last() == pages[0]);
        assert(next.records =~= run.records + batches.flatten());
    }
    if k == 0 {
        assert(more.take(0) =~= Seq::<PageFact>::empty());
        assert(read_through(next, more.take(0)) == next);
    }
}

/// A page gives its own records and its own link, and nothing of either where it has
/// none.
pub proof fn law_a_page_is_read_by_its_members(run: SoqlRunView, page: Seq<u8>)
    ensures
        run.after(page).next == match json::json_string_at(page, "nextRecordsUrl"@) {
            Some(path) => Some(run.instance_url + path),
            None => None::<Seq<char>>,
        },
        run.after(page).records == run.records + match json::json_elements_at(page, "records"@) {
            Some(records) => records,
            None => Seq::<Seq<char>>::empty(),
        },
{
    assert(run.records + Seq::<Seq<char>>::empty() =~= run.records);
}

/// A run brings one item per record, in their order: each holds the digest of its own
/// record, stands in the bundle under its own identity, which is what the record holds in
/// the configured field or else its place, and is of the configured kind.
pub proof fn law_one_item_per_record(run: SoqlRunView, n: int)
    requires
        0 <= n < run.records.len(),
    ensures
        run.result().items.len() == run.records.len(),
        run.result().next_checkpoint is None,
        run.result().notes == text::decimal_text(run.records.len()) + " record(s) from SOQL"@,
        ({
            let body = encode_utf8(run.records[n]);
            let item = run.result().items[n];
            &&& item.content_hash == digest::sha256_text(body)
            &&& item.id == match json::json_string_at(body, run.id_field) {
                Some(id) => id,
                None => "row-"@ + text::decimal_text(n as nat),
            }
            &&& item.locator == Some(item.id)
            &&& item.kind == run.kind
            &&& item.version is None
            &&& item.files == seq!["records.json"@]
            &&& item.file_hashes == Map::<Seq<char>, Seq<char>>::empty()
            &&& text::holds(item.meta, " · "@)
            &&& json::json_string_at(body, "Name"@) matches Some(name) ==> text::ends_with(
                item.meta,
                " · "@ + name,
            )
            &&& json::json_string_at(body, "Name"@) is None ==> text::ends_with(
                item.meta,
                " · "@,
            )
            &&& json::json_member_at(body, "attributes"@) matches Some(m) ==> (json::json_string_at(
                encode_utf8(m),
                "type"@,
            ) matches Some(object) ==> text::starts_with(item.meta, object + " · "@))
            &&& (json::json_member_at(body, "attributes"@) is None || json::json_string_at(
                encode_utf8(json::json_member_at(body, "attributes"@)->Some_0),
                "type"@,
            ) is None) ==> text::starts_with(item.meta, "record"@ + " · "@)
        }),
{
    let body = encode_utf8(run.records[n]);
    let item = run.result().items[n];
    let object = match json::json_member_at(body, "attributes"@) {
        Some(m) => match json::json_string_at(encode_utf8(m), "type"@) {
            Some(t) => t,
            None => "record"@,
        },
        None => "record"@,
    };
    let name = match json::json_string_at(body, "Name"@) {
        Some(s) => s,
        None => Seq::empty(),
    };
    let dot = " · "@;
    assert(item.meta == object + dot + name);
    let i = object.len() as int;
    assert(item.meta.subrange(i, i + dot.len()) =~= dot);
    assert(item.meta.skip(i) =~= dot + name);
    assert(item.meta.take(i + dot.len()) =~= object + dot);
    if json::json_string_at(body, "Name"@) is None {
        assert(dot + name =~= dot);
    }
}

/// Only a first expired token is replaced; every other answer is read where its status
/// is a success, and fails the run where it is none, a second expired token too.
pub proof fn law_an_answer_goes_by_its_status(run: SoqlRunView, status: u16)
    ensures
        run.answered(status) is Refresh <==> status == 401 && !run.refreshed,
        run.answered(status) is Read <==> status / 100 == 2,
        run.judged(status).refreshed <==> run.refreshed || status == 401,
        run.judged(status).pages == run.pages,
        run.judged(status).next == run.next,
        run.judged(status).records == run.records,
{
}

/// The first page is asked for at the organization's own address, and the query comes
/// back whole out of what stands behind `q=`.
pub proof fn law_the_query_is_asked_whole(c: ConfigView)
    ensures
        text::starts_with(
            query_address(c),
            c.instance_url + "/services/data/"@ + c.api_version + "/query?q="@,
        ),
        ({
            let n = (c.instance_url + "/services/data/"@ + c.api_version + "/query?q="@).len();
            decode_utf8(urls::decoded_bytes(query_address(c).skip(n as int))) == c.query
        }),
{
    let head = c.instance_url + "/services/data/"@ + c.api_version + "/query?q="@;
    assert(query_address(c).take(head.len() as int) =~= head);
    assert(query_address(c).skip(head.len() as int) =~= urls::percent_encoded(c.query));
    urls::law_percent_encoding_is_lossless(c.query);
}

/// A sign-in is offered exactly where the reply names an address, a code and a handle,
/// and then with these; it is valid for ten minutes.
pub proof fn law_a_challenge_is_what_the_reply_names(
    all: Seq<char>,
    url: Option<Seq<char>>,
    code: Option<Seq<char>>,
    handle: Option<Seq<char>>,
)
    ensures
        challenge_from(all, url, code, handle) is Ok <==> url is Some && code is Some
            && handle is Some,
        challenge_from(all, url, code, handle) matches Ok(c) ==> {
            &&& Some(c.verification_url) == url
            &&& Some(c.user_code) == code
            &&& Some(c.handle) == handle
            &&& c.expires_in_secs == 10 * 60
        },
        url is None ==> (challenge_from(all, url, code, handle) matches Err(e) && text::holds(
            e,
            all,
        )),
{
    if url is None {
        let e = "device flow refused: "@ + all;
        let n = "device flow refused: "@.len() as int;
        assert(e.subrange(n, n + all.len()) =~= all);
    }
}

/// A sign-in is done exactly where the reply brings an access token, and both tokens are
/// then kept as they came; it is still pending exactly where the reply says so, or asks
/// for patience; any other error fails it and is told.
pub proof fn law_a_poll_is_what_the_reply_says(
    all: Seq<char>,
    token: Option<Seq<char>>,
    refresh: Option<Seq<char>>,
    error: Option<Seq<char>>,
    description: Option<Seq<char>>,
)
    ensures
        ({
            let p = polled_from(all, token, refresh, error, description);
            &&& p is SignedIn <==> token is Some
            &&& p matches PollView::SignedIn(t) ==> Some(t.access_token) == token
                && t.refresh_token == refresh
            &&& p == PollView::Report(AuthPollResultView::Pending) <==> token is None && (error
                == Some("authorization_pending"@) || error == Some("slow_down"@))
            &&& p matches PollView::Report(report) ==> report !is Done
            &&& p matches PollView::Report(AuthPollResultView::Failed(m)) ==> (match error {
                Some(e) => text::starts_with(m, e + ": "@) && (description matches Some(d) ==> m
                    == e + ": "@ + d),
                None => m == "unexpected reply: "@ + all,
            })
        }),
{
    if let Some(e) = error {
        let d = match description {
            Some(d) => d,
            None => Seq::empty(),
        };
        let m = e + ": "@ + d;
        assert(m.take((e + ": "@).len() as int) =~= e + ": "@);
    }
}

/// A refresh brings a new access token and keeps the refresh token, which the reply does
/// not bring; without a new access token it fails and the reply is told.
pub proof fn law_a_refresh_keeps_the_refresh_token(
    all: Seq<char>,
    token: Option<Seq<char>>,
    refresh: Seq<char>,
)
    ensures
        refreshed_from(all, token, refresh) is Ok <==> token is Some,
        refreshed_from(all, token, refresh) matches Ok(t) ==> Some(t.access_token) == token
            && t.refresh_token == Some(refresh),
        refreshed_from(all, token, refresh) matches Err(e) ==> text::holds(e, all),
{
    if token is None {
        let a = "token refresh failed — sign in again ("@;
        let e = a + all + ")"@;
        let n = a.len() as int;
        assert(e.subrange(n, n + all.len()) =~= all);
    }
}

proof fn lemma_no_prefix(s: Seq<char>, prefix: Seq<char>)
    requires
        !text::starts_with(s, prefix),
    ensures
        without_prefix(s, prefix) == s,
{
}

/// The host of an address is what stands between its scheme and the first `/` behind it,
/// or all of the rest where there is none.
pub proof fn law_a_host_is_what_follows_the_scheme(name: Seq<char>, rest: Seq<char>)
    requires
        !name.contains('/'),
    ensures
        host("https://"@ + name + "/"@ + rest) == name || text::starts_with(
            name + "/"@ + rest,
            "https://"@,
        ) || text::starts_with(name + "/"@ + rest, "http://"@),
        host("https://"@ + name) == name,
        host("http://"@ + name) == name,
        host(name) == name,
{
    reveal_strlit("https://");
    reveal_strlit("http://");
    reveal_strlit("/");
    let a = "https://"@ + name + "/"@ + rest;
    let b = name + "/"@ + rest;
    assert(a.take(8) =~= "https://"@);
    assert(a.skip(8) =~= b);
    reveal_with_fuel(without_prefix, 2);
    if !text::starts_with(b, "https://"@) && !text::starts_with(b, "http://"@) {
        assert(without_prefix(a, "https://"@) == b);
        text::lemma_index_of(b, '/', 0);
        let i = text::index_of(b, '/', 0);
        assert(b[name.len() as int] == '/');
        if i < name.len() {
            assert(name[i] == '/');
        }
        assert(b.take(i) =~= name);
    }
    let c = "https://"@ + name;
    assert(c.take(8) =~= "https://"@);
    assert(c.skip(8) =~= name);
    assert(!text::starts_with(name, "https://"@)) by {
        if text::starts_with(name, "https://"@) {
            assert(name.take(8)[6] == '/');
            assert(name[6] == '/');
        }
    }
    assert(!text::starts_with(name, "http://"@)) by {
        if text::starts_with(name, "http://"@) {
            assert(name.take(7)[5] == '/');
            assert(name[5] == '/');
        }
    }
    text::lemma_index_of(name, '/', 0);
    let i = text::index_of(name, '/', 0);
    if i < name.len() {
        assert(name[i] == '/');
    }
    assert(name.take(i) =~= name);
    let plain = "http://"@ + name;
    assert(plain.take(7) =~= "http://"@);
    assert(plain.skip(7) =~= name);
    assert(!text::starts_with(plain, "https://"@)) by {
        if text::starts_with(plain, "https://"@) {
            assert(plain.take(8)[4] == 's');
        }
    }
    lemma_no_prefix(name, "https://"@);
    lemma_no_prefix(name, "http://"@);
    lemma_no_prefix(plain, "https://"@);
    assert(without_prefix(plain, "http://"@) == name);
}

/// The realm of an app in an organization.
pub open spec fn realm_of(c: ConfigView) -> Seq<char> {
    "salesforce:"@ + host(c.instance_url) + ":"@ + c.client_id
}

/// Two sources share a realm only where they use the same app of the same
/// organization, as long as no host holds a `:`.
pub proof fn law_realms_tell_organizations_apart(c: ConfigView, d: ConfigView)
    requires
        !host(c.instance_url).contains(':'),
        !host(d.instance_url).contains(':'),
        realm_of(c) == realm_of(d),
    ensures
        host(c.instance_url) == host(d.instance_url),
        c.client_id == d.client_id,
{
    reveal_strlit("salesforce:");
    reveal_strlit(":");
    let g = host(c.instance_url);
    let h = host(d.instance_url);
    let a = realm_of(c);
    let b = realm_of(d);
    assert(a[11 + g.len() as int] == ':');
    assert(b[11 + h.len() as int] == ':');
    if g.len() < h.len() {
        assert(b[11 + g.len() as int] == h[g.len() as int]);
    } else if h.len() < g.len() {
        assert(a[11 + h.len() as int] == g[h.len() as int]);
    }
    assert(a.subrange(11, 11 + g.len() as int) =~= g);
    assert(b.subrange(11, 11 + h.len() as int) =~= h);
    assert(a.skip(12 + g.len() as int) =~= c.client_id);
    assert(b.skip(12 + h.len() as int) =~= d.client_id);
}

impl SalesforcePlugin {
    /// How the source presents itself.
    pub fn describe(&self) -> (d: Describe)
        ensures
            d.deep_view() == (DescribeView {
                name: "salesforce"@,
                link_namespace: "sf"@,
                fetch_style: FetchStyle::Snapshot,
                auth_realm: Some("salesforce"@),
                protocol: plugin::PROTOCOL,
            }),
    {
        Describe {
            name: "salesforce".to_string(),
            link_namespace: "sf".to_string(),
            fetch_style: FetchStyle::Snapshot,
            auth_realm: Some("salesforce".to_string()),
            protocol: plugin::PROTOCOL,
        }
    }

    /// Refuses a configuration that cannot be fetched with.
    pub fn validate_config(&self, config: &str) -> (r: Result<(), String>)
        ensures
            plugin::outcome(r) == (match config_of(config@) {
                Err(e) => Err(e),
                Ok(c) => match config_error(c) {
                    Some(e) => Err(e),
                    None => Ok(()),
                },
            }),
            document::tells_unknown_in(config_shape(), config@, document::refusal(r)),
    {
        match parse_config(config) {
            Err(e) => Err(e),
            Ok(c) => match find_fault(&c) {
                Some(e) => Err(e),
                None => Ok(()),
            },
        }
    }

    /// The realm in which a source of this configuration signs in.
    pub fn config_auth_realm(&self, config: &str) -> (r: Result<String, String>)
        ensures
            document::result_view(r) == (match config_of(config@) {
                Err(e) => Err(e),
                Ok(c) => Ok(realm_of(c)),
            }),
    {
        match parse_config(config) {
            Err(e) => Err(e),
            Ok(c) => Ok(
                "salesforce:".to_string().concat(
                    host_of(c.instance_url.as_str()).as_str(),
                ).concat(":").concat(c.client_id.as_str()),
            ),
        }
    }

    /// Where the source stands, by whether a token is cached.
    pub fn auth_status(&self, cached: bool) -> (r: AuthStatus)
        ensures
            r.deep_view() == if cached {
                AuthStatusView::Authenticated("token cached (verified on fetch)"@)
            } else {
                AuthStatusView::NotAuthenticated(
                    "no token — sign the realm in (source_auth_begin, or `kindred source auth`)"@,
                )
            },
    {
        if cached {
            AuthStatus::Authenticated("token cached (verified on fetch)".to_string())
        } else {
            AuthStatus::NotAuthenticated(
                "no token — sign the realm in (source_auth_begin, or `kindred source auth`)".to_string(),
            )
        }
    }

    /// Whether a sign-in that was asked about is over, and how: an expired code ends
    /// it without a question.
    pub fn sign_in(&self, expired: bool, poll: &AuthPollResult) -> (r: Option<Result<(), String>>)
        ensures
            match r {
                None => !expired && poll.deep_view() is Pending,
                Some(Ok(_)) => !expired && poll.deep_view() is Done,
                Some(Err(e)) => if expired {
                    e@ == "sign-in code expired"@
                } else {
                    poll.deep_view() == AuthPollResultView::Failed(e@)
                },
            },
    {
        if expired {
            return Some(Err("sign-in code expired".to_string()));
        }
        match poll {
            AuthPollResult::Pending => None,
            AuthPollResult::Done(_) => Some(Ok(())),
            AuthPollResult::Failed(m) => Some(Err(m.clone())),
        }
    }

    /// The configuration to query with, where a snapshot is asked for.
    pub fn plan(&self, spec: &RunSpec, config: &str) -> (r: Result<Config, String>)
        ensures
            config_result(r) == if *spec is Snapshot {
                config_of(config@)
            } else {
                Err("salesforce is a snapshot source"@)
            },
    {
        match spec {
            RunSpec::Snapshot => parse_config(config),
            _ => Err("salesforce is a snapshot source".to_string()),
        }
    }
}

/// A configuration says what the entries of its own names say, each field on its own, and
/// has the documented default where an entry is left out; without names the entries go by
/// place.
pub proof fn law_a_configuration_says_what_its_entries_say(
    entries: Seq<(document::ReadingView, document::ReadingView)>,
    list: Seq<document::ReadingView>,
)
    requires
        document::named(entries),
    ensures
        config_in(DocumentView::Table(entries)) matches Ok(c) ==> {
            &&& c.instance_url == match document::given(entries, "instance_url"@) {
                Some(r) => r.text->Ok_0,
                None => Seq::<char>::empty(),
            }
            &&& c.client_id == match document::given(entries, "client_id"@) {
                Some(r) => r.text->Ok_0,
                None => Seq::<char>::empty(),
            }
            &&& c.query == match document::given(entries, "query"@) {
                Some(r) => r.text->Ok_0,
                None => Seq::<char>::empty(),
            }
            &&& c.kind == match document::given(entries, "kind"@) {
                Some(r) => r.text->Ok_0,
                None => "sf-record"@,
            }
            &&& c.api_version == match document::given(entries, "api_version"@) {
                Some(r) => r.text->Ok_0,
                None => "v62.0"@,
            }
            &&& c.id_field == match document::given(entries, "id_field"@) {
                Some(r) => r.text->Ok_0,
                None => "Id"@,
            }
        },
        config_in(DocumentView::List(list)) matches Ok(c) ==> {
            &&& c.instance_url == if list.len() > 0 {
                list[0].text->Ok_0
            } else {
                Seq::<char>::empty()
            }
            &&& c.client_id == if list.len() > 1 {
                list[1].text->Ok_0
            } else {
                Seq::<char>::empty()
            }
            &&& c.query == if list.len() > 2 {
                list[2].text->Ok_0
            } else {
                Seq::<char>::empty()
            }
            &&& c.kind == if list.len() > 3 {
                list[3].text->Ok_0
            } else {
                "sf-record"@
            }
            &&& c.api_version == if list.len() > 4 {
                list[4].text->Ok_0
            } else {
                "v62.0"@
            }
            &&& c.id_field == if list.len() > 5 {
                list[5].text->Ok_0
            } else {
                "Id"@
            }
        },
        config_in(DocumentView::Table(entries)) is Ok ==> document::given(entries, "instance_url"@) is Some && document::given(entries, "client_id"@) is Some && document::given(entries, "query"@) is Some,
{
    let shape = config_shape();
    reveal_strlit("instance_url");
    reveal_strlit("client_id");
    reveal_strlit("query");
    reveal_strlit("kind");
    reveal_strlit("api_version");
    reveal_strlit("id_field");
    assert(shape.names[0] == "instance_url"@);
    assert(shape.names[1] == "client_id"@);
    assert(shape.names[2] == "query"@);
    assert(shape.names[3] == "kind"@);
    assert(shape.names[4] == "api_version"@);
    assert(shape.names[5] == "id_field"@);
    assert(shape.names.len() == 6);
    assert(shape.names[0].len() == 12);
    assert(shape.names[1].len() == 9);
    assert(shape.names[2].len() == 5);
    assert(shape.names[3].len() == 4);
    assert(shape.names[4].len() == 11);
    assert(shape.names[5].len() == 8);
    assert forall|i: int, j: int| 0 <= i < j < 6 implies #[trigger] shape.names[i]
        != #[trigger] shape.names[j] by {
        assert(shape.names[i].len() != shape.names[j].len() || shape.names[i][0] != shape.names[j][0]);
    }
    assert(shape.names.no_duplicates());
    if config_in(DocumentView::Table(entries)) is Ok {
        document::law_a_field_holds_what_its_name_gives(shape, entries, 0);
        document::law_a_field_holds_what_its_name_gives(shape, entries, 1);
        document::law_a_field_holds_what_its_name_gives(shape, entries, 2);
        document::law_a_field_holds_what_its_name_gives(shape, entries, 3);
        document::law_a_field_holds_what_its_name_gives(shape, entries, 4);
        document::law_a_field_holds_what_its_name_gives(shape, entries, 5);
    }
    if config_in(DocumentView::List(list)) is Ok {
        document::law_entries_without_names_go_by_place(shape, list, 0);
        document::law_entries_without_names_go_by_place(shape, list, 1);
        document::law_entries_without_names_go_by_place(shape, list, 2);
        document::law_entries_without_names_go_by_place(shape, list, 3);
        document::law_entries_without_names_go_by_place(shape, list, 4);
        document::law_entries_without_names_go_by_place(shape, list, 5);
    }
}

/// A query is a selection exactly where its first six characters, behind the white space
/// that it begins with, spell `select` in whatever case.
pub proof fn law_a_selection_begins_with_select(front: Seq<char>, verb: Seq<char>, rest: Seq<char>)
    requires
        forall|i: int| 0 <= i < front.len() ==> text::white_space(#[trigger] front[i]),
        verb.len() == 6,
        !text::white_space(verb[0]),
        (verb + rest).len() > 0 && !text::white_space((verb + rest).last()),
    ensures
        is_select(front + (verb + rest)) <==> text::same_ignoring_ascii_case(verb, "select"@),
{
    let s = verb + rest;
    assert(s[0] == verb[0]);
    text::law_trimming_takes_white_space_alone(front, s, Seq::empty());
    assert(front + s + Seq::<char>::empty() =~= front + s);
    assert(text::first_chars(s, 6) =~= verb);
}

/// A configuration is good exactly where the address of the organization is an encrypted
/// one, there is a consumer key, the query is a selection, and the kind is a bare token.
pub proof fn law_which_configurations_are_good(c: ConfigView)
    ensures
        config_error(c) is None <==> {
            &&& text::starts_with(c.instance_url, "https://"@)
            &&& text::trimmed(c.client_id).len() > 0
            &&& is_select(c.query)
            &&& c.kind.len() > 0 && forall|i: int|
                0 <= i < c.kind.len() ==> (text::ascii_alphanumeric(#[trigger] c.kind[i])
                    || c.kind[i] == '-')
        },
{
}

/// Replies are read by the members that they are documented to have, and one that is no
/// JSON fails.
pub proof fn law_replies_are_read_by_their_members(reply: Seq<u8>, all: Seq<char>)
    requires
        json::json_text(reply) == Some(all),
    ensures
        ({
            let at = |key: Seq<char>| json::json_string_at(reply, key);
            &&& challenge(reply) matches Ok(c) ==> Some(c.verification_url) == at(
                "verification_uri"@,
            ) && Some(c.user_code) == at("user_code"@) && Some(c.handle) == at("device_code"@)
            &&& challenge(reply) is Ok <==> at("verification_uri"@) is Some && at(
                "user_code"@,
            ) is Some && at("device_code"@) is Some
            &&& polled(reply) is Ok
            &&& at("access_token"@) matches Some(t) ==> polled(reply)->Ok_0 == PollView::SignedIn(
                StoredTokenView { access_token: t, refresh_token: at("refresh_token"@) },
            )
            &&& at("access_token"@) is None ==> polled(reply)->Ok_0 is Report
            &&& at("access_token"@) is None && at("error"@) == Some("authorization_pending"@)
                ==> polled(reply)->Ok_0 == PollView::Report(AuthPollResultView::Pending)
        }),
{
}

/// What is stated of a configuration is stated of its own fields.
pub proof fn law_a_configuration_is_its_fields(c: Config)
    ensures
        c.deep_view().instance_url == c.instance_url@,
        c.deep_view().client_id == c.client_id@,
        c.deep_view().query == c.query@,
        c.deep_view().kind == c.kind@,
        c.deep_view().api_version == c.api_version@,
        c.deep_view().id_field == c.id_field@,
{
}

/// What is stated of tokens is stated of their own fields.
pub proof fn law_tokens_are_their_fields(t: StoredToken)
    ensures
        t.deep_view().access_token == t.access_token@,
        t.deep_view().refresh_token == t.refresh_token.deep_view(),
{
}

} // verus!
