//! What the Graph client decides: where the bearer token may travel, when a
//! request is tried again, what a status means, and how a collection is paged.

use vstd::prelude::*;
use crate::text;
use crate::text::{decimal, has_prefix, parse_number};

verus! {

/// The root of every Graph address.
pub const GRAPH_BASE: &'static str = "https://graph.microsoft.com/v1.0";

/// The one origin that the bearer token is sent to.
pub const GRAPH_ORIGIN: &'static str = "https://graph.microsoft.com/";

/// How often a request is sent at most.
pub const MAX_RETRIES: u32 = 5;

/// How many pages of a collection are read at most: a backstop against a next
/// link that never ends.
pub const MAX_PAGES: u32 = 500;

/// The credentials and preferences of one client.
pub struct GraphClient {
    token: String,
    prefer: Option<&'static str>,
}

impl GraphClient {
    /// The bearer token.
    pub closed spec fn token_view(&self) -> Seq<char> {
        self.token@
    }

    /// The preference sent with every request.
    pub closed spec fn prefer_view(&self) -> Option<Seq<char>> {
        self.prefer.deep_view()
    }

    /// A client without preferences.
    pub fn new(token: String) -> (c: GraphClient)
        ensures
            c.token_view() == token@,
            c.prefer_view() is None,
    {
        GraphClient { token, prefer: None }
    }

    /// Asks for message and event bodies as plain text.
    pub fn with_text_bodies(self) -> (c: GraphClient)
        ensures
            c.token_view() == self.token_view(),
            c.prefer_view() == Some("outlook.body-content-type=\"text\""@),
    {
        GraphClient { token: self.token, prefer: Some("outlook.body-content-type=\"text\"") }
    }

    /// The headers of a request for this kind of content.
    pub fn headers(&self, accept: &str) -> (r: Vec<(String, String)>)
        ensures
            r.deep_view() == request_headers(self.token_view(), self.prefer_view(), accept@),
    {
        let mut r: Vec<(String, String)> = Vec::new();
        r.push(("authorization".to_string(), "Bearer ".to_string().concat(self.token.as_str())));
        r.push(("accept".to_string(), accept.to_string()));
        if let Some(p) = self.prefer {
            r.push(("prefer".to_string(), p.to_string()));
        }
        assert(r.deep_view() =~= request_headers(self.token_view(), self.prefer_view(), accept@));
        r
    }
}

/// The headers of a request.
pub open spec fn request_headers(
    token: Seq<char>,
    prefer: Option<Seq<char>>,
    accept: Seq<char>,
) -> Seq<(Seq<char>, Seq<char>)> {
    let base = seq![("authorization"@, "Bearer "@ + token), ("accept"@, accept)];
    match prefer {
        Some(p) => base.push(("prefer"@, p)),
        None => base,
    }
}

// One request, tried again where that may help.

/// What came of sending a request once.
pub enum Reply {
    /// No answer, for this reason.
    Failed(String),
    /// An answer with this status, and what its `Retry-After` header says.
    Answered { status: u16, retry_after: Option<String> },
}

#[verifier::ext_equal]
pub enum ReplyView {
    Failed(Seq<char>),
    Answered { status: u16, retry_after: Option<Seq<char>> },
}

impl DeepView for Reply {
    type V = ReplyView;

    open spec fn deep_view(&self) -> ReplyView {
        match self {
            Reply::Failed(e) => ReplyView::Failed(e@),
            Reply::Answered { status, retry_after } => ReplyView::Answered {
                status: *status,
                retry_after: retry_after.deep_view(),
            },
        }
    }
}

/// What to do about a reply.
pub enum Verdict {
    /// Say this, wait so many seconds, and send the request again.
    Retry { wait_secs: u64, say: String },
    /// The answer stands.
    Deliver,
    /// No answer will come: fail for this reason.
    GiveUp(String),
}

#[verifier::ext_equal]
pub enum VerdictView {
    Retry { wait_secs: nat, say: Seq<char> },
    Deliver,
    GiveUp(Seq<char>),
}

impl DeepView for Verdict {
    type V = VerdictView;

    open spec fn deep_view(&self) -> VerdictView {
        match self {
            Verdict::Retry { wait_secs, say } => VerdictView::Retry {
                wait_secs: *wait_secs as nat,
                say: say@,
            },
            Verdict::Deliver => VerdictView::Deliver,
            Verdict::GiveUp(e) => VerdictView::GiveUp(e@),
        }
    }
}

/// Two to the power of `n`, thirty at most.
pub open spec fn capped_power(n: nat) -> nat
    decreases n,
{
    if n == 0 {
        1
    } else if 2 * capped_power((n - 1) as nat) < 30 {
        2 * capped_power((n - 1) as nat)
    } else {
        30
    }
}

/// Seconds between two attempts: exponential with a cap, and a spread that
/// depends on the process so that clients do not move in step.
pub open spec fn backoff_secs(attempt: nat, process: nat) -> nat {
    capped_power(attempt) + (process % 7 + attempt % 5) % 5
}

/// Seconds that a rate-limited client waits: what the header asks for, five
/// where it does not say, sixty at most.
pub open spec fn rate_limit_secs(retry_after: Option<Seq<char>>) -> nat {
    let asked = match retry_after {
        Some(s) => match text::spelled_number(s) {
            Some(n) => n,
            None => 5,
        },
        None => 5,
    };
    if asked < 60 {
        asked
    } else {
        60
    }
}

/// What to do about a reply to this attempt, the first of which is number one.
pub open spec fn judged(attempt: nat, reply: ReplyView, process: nat) -> VerdictView {
    let last = attempt >= MAX_RETRIES;
    let count = "(attempt "@ + text::decimal_text(attempt) + "/5)"@;
    match reply {
        ReplyView::Failed(e) => if last {
            VerdictView::GiveUp(e)
        } else {
            VerdictView::Retry {
                wait_secs: backoff_secs(attempt, process),
                say: "Graph request failed ("@ + e + "); retrying "@ + count,
            }
        },
        ReplyView::Answered { status, retry_after } => if last {
            VerdictView::Deliver
        } else if status == 429 {
            VerdictView::Retry {
                wait_secs: rate_limit_secs(retry_after),
                say: "Rate-limited by Graph; waiting "@ + text::decimal_text(
                    rate_limit_secs(retry_after),
                ) + "s "@ + count,
            }
        } else if 500 <= status < 600 {
            VerdictView::Retry {
                wait_secs: backoff_secs(attempt, process),
                say: "Graph returned HTTP "@ + text::decimal_text(status as nat) + " — retrying "@
                    + count,
            }
        } else {
            VerdictView::Deliver
        },
    }
}

proof fn lemma_capped_power(n: nat)
    ensures
        1 <= capped_power(n) <= 30,
    decreases n,
{
    if n > 0 {
        lemma_capped_power((n - 1) as nat);
    }
}

fn backoff(attempt: u32, process: u32) -> (r: u64)
    ensures
        r == backoff_secs(attempt as nat, process as nat),
{
    let mut power: u64 = 1;
    let mut i: u32 = 0;
    while i < attempt
        invariant
            i <= attempt,
            power == capped_power(i as nat),
            1 <= power <= 30,
        decreases attempt - i,
    {
        power = if 2 * power < 30 {
            2 * power
        } else {
            30
        };
        i += 1;
    }
    power + ((process % 7 + attempt % 5) % 5) as u64
}

fn rate_limit_wait(retry_after: &Option<String>) -> (r: u64)
    ensures
        r == rate_limit_secs(retry_after.deep_view()),
{
    let asked: u64 = match retry_after {
        Some(s) => match parse_number(s.as_str()) {
            Some(n) => n,
            None => 5,
        },
        None => 5,
    };
    if asked < 60 {
        asked
    } else {
        60
    }
}

/// One request on its way, with the number of the current attempt.
pub struct Exchange {
    url: String,
    attempt: u32,
}

#[verifier::ext_equal]
pub struct ExchangeView {
    pub url: Seq<char>,
    pub attempt: nat,
}

impl View for Exchange {
    type V = ExchangeView;

    closed spec fn view(&self) -> ExchangeView {
        ExchangeView { url: self.url@, attempt: self.attempt as nat }
    }
}

/// Whether the bearer token may travel to this address.
pub open spec fn graph_origin(url: Seq<char>) -> bool {
    text::starts_with(url, GRAPH_ORIGIN@)
}

impl Exchange {
    #[verifier::type_invariant]
    spec fn well_formed(self) -> bool {
        1 <= self.attempt <= MAX_RETRIES && graph_origin(self.url@)
    }

    /// A first attempt, refused where the bearer token would leave the Graph
    /// origin.
    pub fn begin(url: &str) -> (r: Result<Exchange, String>)
        ensures
            match r {
                Ok(x) => graph_origin(url@) && x@ == (ExchangeView { url: url@, attempt: 1 }),
                Err(e) => !graph_origin(url@) && e@
                    == "refusing to send the Graph bearer token to a non-Graph origin: "@ + url@,
            },
    {
        if has_prefix(url, GRAPH_ORIGIN) {
            Ok(Exchange { url: url.to_string(), attempt: 1 })
        } else {
            Err(
                "refusing to send the Graph bearer token to a non-Graph origin: ".to_string().concat(
                    url,
                ),
            )
        }
    }

    /// The address to send the request to: always one of the Graph origin.
    pub fn url(&self) -> (r: &String)
        ensures
            r@ == self@.url,
            graph_origin(r@),
    {
        proof {
            use_type_invariant(self);
        }
        &self.url
    }

    /// What to do about the reply to the current attempt. Where the request is to
    /// be sent again, the next attempt begins.
    pub fn judge(&mut self, reply: &Reply, process: u32) -> (r: Verdict)
        ensures
            1 <= old(self)@.attempt <= MAX_RETRIES,
            r.deep_view() == judged(old(self)@.attempt, reply.deep_view(), process as nat),
            final(self)@ == (ExchangeView {
                url: old(self)@.url,
                attempt: if r is Retry {
                    old(self)@.attempt + 1
                } else {
                    old(self)@.attempt
                },
            }),
    {
        proof {
            use_type_invariant(&*self);
        }
        let attempt = self.attempt;
        let last = attempt >= MAX_RETRIES;
        let count = "(attempt ".to_string().concat(decimal(attempt as u64).as_str()).concat("/5)");
        let verdict = match reply {
            Reply::Failed(e) => if last {
                Verdict::GiveUp(e.clone())
            } else {
                Verdict::Retry {
                    wait_secs: backoff(attempt, process),
                    say: "Graph request failed (".to_string().concat(e.as_str()).concat(
                        "); retrying ",
                    ).concat(count.as_str()),
                }
            },
            Reply::Answered { status, retry_after } => if last {
                Verdict::Deliver
            } else if *status == 429 {
                let wait = rate_limit_wait(retry_after);
                Verdict::Retry {
                    wait_secs: wait,
                    say: "Rate-limited by Graph; waiting ".to_string().concat(
                        decimal(wait).as_str(),
                    ).concat("s ").concat(count.as_str()),
                }
            } else if 500 <= *status && *status < 600 {
                Verdict::Retry {
                    wait_secs: backoff(attempt, process),
                    say: "Graph returned HTTP ".to_string().concat(
                        decimal(*status as u64).as_str(),
                    ).concat(" — retrying ").concat(count.as_str()),
                }
            } else {
                Verdict::Deliver
            },
        };
        if let Verdict::Retry { .. } = verdict {
            self.attempt = attempt + 1;
        }
        verdict
    }
}

/// A request is sent five times at most, and no pause between two attempts is
/// longer than a minute.
pub proof fn law_retries_are_bounded(attempt: nat, reply: ReplyView, process: nat)
    ensures
        attempt >= MAX_RETRIES ==> judged(attempt, reply, process) !is Retry,
        judged(attempt, reply, process) matches VerdictView::Retry { wait_secs, .. } ==> wait_secs
            <= 60,
{
    lemma_capped_power(attempt);
}

/// Before the last attempt, exactly failures, rate limits and server errors are
/// tried again; an answer that stands is delivered.
pub proof fn law_what_is_tried_again(attempt: nat, reply: ReplyView, process: nat)
    requires
        attempt < MAX_RETRIES,
    ensures
        judged(attempt, reply, process) is Retry <==> (match reply {
            ReplyView::Failed(_) => true,
            ReplyView::Answered { status, .. } => status == 429 || 500 <= status < 600,
        }),
{
}

/// The pauses between attempts double, from two seconds on, up to thirty, and up to four
/// seconds more come with the process and the attempt.
pub proof fn law_pauses_double(attempt: nat, process: nat)
    ensures
        backoff_secs(attempt, process) == (if attempt == 0 {
            1
        } else if attempt == 1 {
            2
        } else if attempt == 2 {
            4
        } else if attempt == 3 {
            8
        } else if attempt == 4 {
            16
        } else {
            30int
        }) + (process % 7 + attempt % 5) % 5,
    decreases attempt,
{
    if attempt > 0 {
        law_pauses_double((attempt - 1) as nat, process);
    }
}

/// A rate-limited client waits as long as the header asks for in decimal digits, a minute
/// at most, and five seconds where the header says no number.
pub proof fn law_a_rate_limit_is_honoured(n: nat, s: Seq<char>)
    requires
        n <= u64::MAX,
    ensures
        rate_limit_secs(Some(text::decimal_text(n))) == if n < 60 {
            n
        } else {
            60
        },
        rate_limit_secs(None) == 5,
        text::spelled_number(s) is None ==> rate_limit_secs(Some(s)) == 5,
{
    text::law_decimals_read_back(n);
}

/// What a failed attempt is followed by: before the fifth another one, after a pause that
/// is the one of a rate limit for that status alone; the fifth reply stands, and where it
/// is none the request fails for its reason.
pub proof fn law_what_follows_an_attempt(attempt: nat, reply: ReplyView, process: nat)
    ensures
        attempt >= 5 ==> judged(attempt, reply, process) == (match reply {
            ReplyView::Failed(e) => VerdictView::GiveUp(e),
            ReplyView::Answered { .. } => VerdictView::Deliver,
        }),
        attempt < 5 ==> match reply {
            ReplyView::Failed(e) => judged(attempt, reply, process)->wait_secs == backoff_secs(
                attempt,
                process,
            ) && text::holds(judged(attempt, reply, process)->say, e),
            ReplyView::Answered { status, retry_after } => if status == 429 {
                judged(attempt, reply, process)->wait_secs == rate_limit_secs(retry_after)
            } else if status / 100 == 5 {
                judged(attempt, reply, process)->wait_secs == backoff_secs(attempt, process)
            } else {
                judged(attempt, reply, process) is Deliver
            },
        },
        judged(attempt, reply, process) matches VerdictView::Retry { say, .. } ==> text::ends_with(
            say,
            "(attempt "@ + text::decimal_text(attempt) + "/5)"@,
        ),
{
    let count = "(attempt "@ + text::decimal_text(attempt) + "/5)"@;
    match reply {
        ReplyView::Failed(e) => {
            let a = "Graph request failed ("@;
            let b = "); retrying "@;
            let say = a + e + b + count;
            assert(say.subrange(a.len() as int, a.len() as int + e.len()) =~= e);
            assert(say.skip(say.len() - count.len()) =~= count);
        },
        ReplyView::Answered { status, retry_after } => {
            let a = "Rate-limited by Graph; waiting "@ + text::decimal_text(
                rate_limit_secs(retry_after),
            ) + "s "@;
            assert((a + count).skip(a.len() as int) =~= count);
            let b = "Graph returned HTTP "@ + text::decimal_text(status as nat) + " — retrying "@;
            assert((b + count).skip(b.len() as int) =~= count);
        },
    }
}

/// The bearer token travels to addresses that begin with `https://graph.microsoft.com/`
/// and to no other: not to a host that merely begins so, and not without encryption.
pub proof fn law_the_token_stays_with_graph(url: Seq<char>, host: Seq<char>)
    ensures
        graph_origin(url) <==> text::starts_with(url, "https://graph.microsoft.com/"@),
        graph_origin("https://graph.microsoft.com/"@ + url),
        !graph_origin("http://"@ + url),
        host.len() > 0 && host[0] != '/' ==> !graph_origin("https://graph.microsoft.com"@ + host),
{
    reveal_strlit("https://graph.microsoft.com/");
    reveal_strlit("https://graph.microsoft.com");
    reveal_strlit("http://");
    let o = "https://graph.microsoft.com/"@;
    assert((o + url).take(o.len() as int) =~= o);
    let plain = "http://"@ + url;
    if graph_origin(plain) {
        assert(plain.take(o.len() as int)[4] == o[4]);
    }
    let near = "https://graph.microsoft.com"@ + host;
    if host.len() > 0 && host[0] != '/' && graph_origin(near) {
        let n = o.len() - 1;
        assert(near.take(o.len() as int)[n] == o[n]);
        assert(near[n] == host[0]);
    }
}

/// A request carries the token once, as a bearer, what it accepts, and the preference
/// where there is one, and nothing else.
pub proof fn law_what_a_request_carries(
    token: Seq<char>,
    prefer: Option<Seq<char>>,
    accept: Seq<char>,
)
    ensures
        request_headers(token, prefer, accept).contains(
            ("authorization"@, "Bearer "@ + token),
        ),
        request_headers(token, prefer, accept).contains(("accept"@, accept)),
        prefer matches Some(p) ==> request_headers(token, prefer, accept).contains(
            ("prefer"@, p),
        ),
        request_headers(token, prefer, accept).len() == if prefer is Some {
            3int
        } else {
            2int
        },
{
    let r = request_headers(token, prefer, accept);
    assert(r[0] == ("authorization"@, "Bearer "@ + token));
    assert(r[1] == ("accept"@, accept));
    if prefer is Some {
        assert(r[2] == ("prefer"@, prefer->Some_0));
    }
}

// What a status means.

/// What a tolerant request brought: absence and denial are different facts.
pub enum Fetched {
    Body(Vec<u8>),
    Absent,
    Denied,
}

#[verifier::ext_equal]
pub enum FetchedView {
    Body(Seq<u8>),
    Absent,
    Denied,
}

impl DeepView for Fetched {
    type V = FetchedView;

    open spec fn deep_view(&self) -> FetchedView {
        match self {
            Fetched::Body(b) => FetchedView::Body(b@),
            Fetched::Absent => FetchedView::Absent,
            Fetched::Denied => FetchedView::Denied,
        }
    }
}

/// `Graph GET failed (HTTP <status>) for <url>`.
pub open spec fn status_error(status: u16, url: Seq<char>) -> Seq<char> {
    "Graph GET failed (HTTP "@ + text::decimal_text(status as nat) + ") for "@ + url
}

fn status_failure(status: u16, url: &str) -> (r: String)
    ensures
        r@ == status_error(status, url@),
{
    "Graph GET failed (HTTP ".to_string().concat(decimal(status as u64).as_str()).concat(
        ") for ",
    ).concat(url)
}

/// Whether an answer may be decoded: any status but 200 is an error.
pub fn require_success(status: u16, url: &str) -> (r: Result<(), String>)
    ensures
        match r {
            Ok(_) => status == 200,
            Err(e) => status != 200 && e@ == status_error(status, url@),
        },
{
    if status == 200 {
        Ok(())
    } else {
        Err(status_failure(status, url))
    }
}

/// What a tolerant request brought, by its status.
pub open spec fn tolerated(status: u16, body: Seq<u8>, url: Seq<char>) -> Result<
    FetchedView,
    Seq<char>,
> {
    if status == 200 {
        Ok(FetchedView::Body(body))
    } else if status == 404 {
        Ok(FetchedView::Absent)
    } else if status == 403 {
        Ok(FetchedView::Denied)
    } else {
        Err(status_error(status, url))
    }
}

/// Absence and denial are told apart, by 404 and 403, a success brings the whole body, and
/// every other status is an error: none passes for an empty answer.
pub proof fn law_absence_denial_and_failure_are_told_apart(
    status: u16,
    body: Seq<u8>,
    url: Seq<char>,
)
    ensures
        tolerated(status, body, url) == Ok::<FetchedView, Seq<char>>(FetchedView::Absent) <==> status
            == 404,
        tolerated(status, body, url) == Ok::<FetchedView, Seq<char>>(FetchedView::Denied) <==> status
            == 403,
        tolerated(status, body, url) matches Ok(FetchedView::Body(b)) ==> b == body && status == 200,
        tolerated(status, body, url) is Err <==> status != 200 && status != 403 && status != 404,
{
}

/// What a tolerant request brought, by its status: a body, absence (404), denial
/// (403), or an error for anything else.
pub fn raw_outcome(status: u16, body: Vec<u8>, url: &str) -> (r: Result<Fetched, String>)
    ensures
        match r {
            Ok(f) => f.deep_view() == (if status == 200 {
                FetchedView::Body(body@)
            } else if status == 404 {
                FetchedView::Absent
            } else {
                FetchedView::Denied
            }) && (status == 200 || status == 404 || status == 403),
            Err(e) => status != 200 && status != 404 && status != 403 && e@ == status_error(
                status,
                url@,
            ),
        },
        (match r {
            Ok(f) => Ok(f.deep_view()),
            Err(e) => Err(e@),
        }) == tolerated(status, body@, url@),
{
    if status == 200 {
        Ok(Fetched::Body(body))
    } else if status == 404 {
        Ok(Fetched::Absent)
    } else if status == 403 {
        Ok(Fetched::Denied)
    } else {
        Err(status_failure(status, url))
    }
}

// Paging.

/// What one page, or a whole collection, brought.
pub enum PageOutcome<T> {
    Page(Vec<T>, Option<String>),
    Absent,
    Denied,
}

/// What a collection makes of a page that is absent or denied.
#[derive(Clone, Copy, PartialEq, Eq, Structural)]
pub enum Policy {
    /// Every page has to be there.
    Whole,
    /// An absent first page is an empty collection. Denial fails the run, for a
    /// run that was denied must not look complete.
    Listing,
    /// Absence and denial of the first page are reported as such.
    PerItem,
}

/// A collection being read page by page.
pub struct Pager<T> {
    policy: Policy,
    url: String,
    next: Option<String>,
    pages: u32,
    records: Vec<T>,
}

#[verifier::ext_equal]
pub struct PagerView<T> {
    pub policy: Policy,
    pub url: Seq<char>,
    /// The page to be read next.
    pub next: Option<Seq<char>>,
    /// How many pages were read.
    pub pages: nat,
    /// Their records, in order.
    pub records: Seq<T>,
}

impl<T> View for Pager<T> {
    type V = PagerView<T>;

    closed spec fn view(&self) -> PagerView<T> {
        PagerView {
            policy: self.policy,
            url: self.url@,
            next: self.next.deep_view(),
            pages: self.pages as nat,
            records: self.records@,
        }
    }
}

impl<T> PagerView<T> {
    /// What a page too many is reported as.
    pub open spec fn overrun(self) -> Seq<char> {
        "paging exceeded 500 pages for "@ + self.url + match self.policy {
            Policy::Listing => " — aborting (likely an unbounded nextLink)"@,
            _ => " — aborting"@,
        }
    }

    /// After one more page.
    pub open spec fn after(self, records: Seq<T>, link: Option<Seq<char>>) -> PagerView<T> {
        PagerView {
            policy: self.policy,
            url: self.url,
            next: link,
            pages: self.pages + 1,
            records: self.records + records,
        }
    }

    /// What is said on the way: the count of records, every five pages.
    pub open spec fn progress(self) -> Option<Seq<char>> {
        if self.policy is Whole && self.pages % 5 == 0 && self.next is Some {
            Some(
                text::decimal_text(self.records.len()) + " records ("@ + text::decimal_text(
                    self.pages,
                ) + " pages)…"@,
            )
        } else {
            None
        }
    }

    /// What the collection comes to where the next page, at `at`, is absent or
    /// denied.
    pub open spec fn gap(self, at: Seq<char>, denied: bool) -> Result<PageOutcome<T>, Seq<char>> {
        match self.policy {
            Policy::Whole => Err(
                status_error(
                    if denied {
                        403
                    } else {
                        404
                    },
                    at,
                ),
            ),
            Policy::Listing => if denied {
                Err(
                    "Graph denied access (HTTP 403) for "@ + at
                        + " — the run cannot be treated as complete"@,
                )
            } else if self.pages > 0 {
                Err(
                    "collection disappeared mid-pagination for "@ + at
                        + " — an accumulated prefix must not advance the window as if complete"@,
                )
            } else {
                Ok(PageOutcome::Absent)
            },
            Policy::PerItem => if self.pages > 0 {
                Err(
                    "collection disappeared mid-pagination for "@ + at
                        + " — incomplete, refusing"@,
                )
            } else if denied {
                Ok(PageOutcome::Denied)
            } else {
                Ok(PageOutcome::Absent)
            },
        }
    }
}

impl<T> Pager<T> {
    #[verifier::type_invariant]
    spec fn well_formed(self) -> bool {
        self.pages < MAX_PAGES
    }

    /// A collection before its first page.
    pub fn begin(policy: Policy, url: &str) -> (p: Pager<T>)
        ensures
            p@ == (PagerView {
                policy,
                url: url@,
                next: Some(url@),
                pages: 0,
                records: Seq::<T>::empty(),
            }),
    {
        Pager {
            policy,
            url: url.to_string(),
            next: Some(url.to_string()),
            pages: 0,
            records: Vec::new(),
        }
    }

    /// The page to be read next.
    pub fn next_url(&self) -> (r: Option<&String>)
        ensures
            match r {
                Some(u) => self@.next == Some(u@),
                None => self@.next is None,
            },
    {
        self.next.as_ref()
    }

    /// Takes a page: its records, and the link to the page behind it. Five hundred
    /// pages are too many.
    pub fn page(self, records: Vec<T>, link: Option<String>) -> (r: Result<Pager<T>, String>)
        ensures
            self@.pages < MAX_PAGES,
            match r {
                Ok(p) => self@.pages + 1 < MAX_PAGES && p@ == self@.after(
                    records@,
                    link.deep_view(),
                ),
                Err(e) => self@.pages + 1 == MAX_PAGES && e@ == self@.overrun(),
            },
    {
        proof {
            use_type_invariant(&self);
        }
        if self.pages + 1 >= MAX_PAGES {
            let tail = match self.policy {
                Policy::Listing => " — aborting (likely an unbounded nextLink)",
                _ => " — aborting",
            };
            return Err(
                "paging exceeded 500 pages for ".to_string().concat(self.url.as_str()).concat(
                    tail,
                ),
            );
        }
        let mut all = self.records;
        let mut more = records;
        all.append(&mut more);
        Ok(
            Pager {
                policy: self.policy,
                url: self.url,
                next: link,
                pages: self.pages + 1,
                records: all,
            },
        )
    }

    /// What is said on the way, every five pages.
    pub fn progress(&self) -> (r: Option<String>)
        ensures
            r.deep_view() == self@.progress(),
    {
        if self.policy == Policy::Whole && self.pages % 5 == 0 && self.next.is_some() {
            Some(
                decimal(self.records.len() as u64).concat(" records (").concat(
                    decimal(self.pages as u64).as_str(),
                ).concat(" pages)…"),
            )
        } else {
            None
        }
    }

    /// What the collection comes to where the next page, at `at`, is absent or
    /// denied.
    pub fn missing(&self, at: &str, denied: bool) -> (r: Result<PageOutcome<T>, String>)
        ensures
            (match r {
                Ok(o) => Ok(o),
                Err(e) => Err(e@),
            }) == self@.gap(at@, denied),
    {
        match self.policy {
            Policy::Whole => Err(
                status_failure(
                    if denied {
                        403
                    } else {
                        404
                    },
                    at,
                ),
            ),
            Policy::Listing => if denied {
                Err(
                    "Graph denied access (HTTP 403) for ".to_string().concat(at).concat(
                        " — the run cannot be treated as complete",
                    ),
                )
            } else if self.pages > 0 {
                Err(
                    "collection disappeared mid-pagination for ".to_string().concat(at).concat(
                        " — an accumulated prefix must not advance the window as if complete",
                    ),
                )
            } else {
                Ok(PageOutcome::Absent)
            },
            Policy::PerItem => if self.pages > 0 {
                Err(
                    "collection disappeared mid-pagination for ".to_string().concat(at).concat(
                        " — incomplete, refusing",
                    ),
                )
            } else if denied {
                Ok(PageOutcome::Denied)
            } else {
                Ok(PageOutcome::Absent)
            },
        }
    }

    /// The records of all pages read.
    pub fn finish(self) -> (r: Vec<T>)
        ensures
            r@ == self@.records,
    {
        self.records
    }
}

/// A collection whose first page was read is never reported as absent or
/// denied: a page that goes missing behind it is an error, so that no part of a
/// collection passes for the whole.
pub proof fn law_no_prefix_passes_for_the_whole<T>(p: PagerView<T>, at: Seq<char>, denied: bool)
    requires
        p.pages > 0,
    ensures
        p.gap(at, denied) is Err,
{
}

/// What a collection comes to whose very first page is absent or denied: a whole one
/// fails, a listing that is absent is reported so and one that is denied fails, and for a
/// single item both are reported as what they are. Every failure names the page.
pub proof fn law_what_a_missing_first_page_means<T>(p: PagerView<T>, at: Seq<char>, denied: bool)
    requires
        p.pages == 0,
    ensures
        p.policy is Whole ==> p.gap(at, denied) is Err,
        p.policy is Listing ==> (p.gap(at, denied) is Err <==> denied),
        p.policy is Listing && !denied ==> p.gap(at, denied)->Ok_0 is Absent,
        p.policy is PerItem ==> p.gap(at, denied) is Ok,
        p.policy is PerItem ==> (p.gap(at, denied)->Ok_0 is Denied <==> denied),
        p.policy is PerItem ==> (p.gap(at, denied)->Ok_0 is Absent <==> !denied),
{
}

/// After any page the next one is the one it links to, and where it links to none the
/// collection is at its end; its records stand behind those before it.
pub proof fn law_a_collection_follows_its_links<T>(
    p: PagerView<T>,
    records: Seq<T>,
    link: Option<Seq<char>>,
)
    ensures
        p.after(records, link).next == link,
        p.after(records, link).records.len() == p.records.len() + records.len(),
        forall|i: int|
            0 <= i < p.records.len() ==> #[trigger] p.after(records, link).records[i]
                == p.records[i],
        forall|i: int|
            0 <= i < records.len() ==> p.after(records, link).records[p.records.len() + i]
                == #[trigger] records[i],
        p.after(records, link).pages == p.pages + 1,
        p.after(records, link).policy == p.policy,
        p.after(records, link).url == p.url,
{
}

/// A failure says which status came and for which page.
pub proof fn law_a_failure_names_its_page(status: u16, url: Seq<char>)
    ensures
        text::ends_with(status_error(status, url), ") for "@ + url),
        text::starts_with(
            status_error(status, url),
            "Graph GET failed (HTTP "@ + text::decimal_text(status as nat) + ")"@,
        ),
{
    reveal_strlit(") for ");
    reveal_strlit(")");
    let s = status_error(status, url);
    let a = "Graph GET failed (HTTP "@ + text::decimal_text(status as nat);
    assert(s.skip(a.len() as int) =~= ") for "@ + url);
    assert(s.take(a.len() as int + 1) =~= a + ")"@);
}

/// Pages taken one after the other.
pub open spec fn paged<T>(p: PagerView<T>, pages: Seq<(Seq<T>, Option<Seq<char>>)>) -> PagerView<T>
    decreases pages.len(),
{
    if pages.len() == 0 {
        p
    } else {
        paged(p.after(pages[0].0, pages[0].1), pages.drop_first())
    }
}

/// The records of some pages, in order.
pub open spec fn records_of<T>(pages: Seq<(Seq<T>, Option<Seq<char>>)>) -> Seq<T>
    decreases pages.len(),
{
    if pages.len() == 0 {
        Seq::empty()
    } else {
        pages[0].0 + records_of(pages.drop_first())
    }
}

/// A collection holds the records of its pages, all of them and in order.
pub proof fn law_a_collection_is_its_pages<T>(
    p: PagerView<T>,
    pages: Seq<(Seq<T>, Option<Seq<char>>)>,
)
    ensures
        paged(p, pages).records == p.records + records_of(pages),
        paged(p, pages).pages == p.pages + pages.len(),
        records_of(pages) == pages.map_values(|page: (Seq<T>, Option<Seq<char>>)| page.0).flatten(),
        pages.len() > 0 ==> paged(p, pages).next == pages.last().1,
    decreases pages.len(),
{
    let batches = pages.map_values(|page: (Seq<T>, Option<Seq<char>>)| page.0);
    if pages.len() == 0 {
        assert(p.records + records_of(pages) =~= p.records);
        assert(records_of(pages) =~= batches.flatten());
    } else {
        let rest = pages.drop_first();
        assert(batches.drop_first() =~= rest.map_values(
            |page: (Seq<T>, Option<Seq<char>>)| page.0,
        ));
        if rest.len() > 0 {
            assert(rest.last() == pages.last());
        } else {
            assert(pages.last() == pages[0]);
        }
        law_a_collection_is_its_pages(p.after(pages[0].0, pages[0].1), pages.drop_first());
        assert(p.after(pages[0].0, pages[0].1).records + records_of(pages.drop_first())
            =~= p.records + records_of(pages));
    }
}

} // verus!
