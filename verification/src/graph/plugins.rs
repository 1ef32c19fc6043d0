//! The windowed sources of the Graph family. They share their configuration and
//! their sign-in.

use vstd::prelude::*;
use crate::document;
use crate::graph::config;
use crate::graph::config::{auth_realm, Config, ConfigView};
use crate::graph::window;
use crate::graph::window::{Instant, UtcTime};
use crate::plugin;
use crate::plugin::{
    AuthStatus, AuthStatusView, Describe, DescribeView, FetchResult, FetchResultView, FetchStyle,
    Item, ItemView, RunSpec,
};
use crate::text;
use crate::text::decimal;

verus! {

/// Mail, with its attachments.
pub struct GraphMailPlugin;

/// Calendar events.
pub struct GraphCalendarPlugin;

/// Meetings, with their transcripts and attendance reports.
pub struct GraphMeetingsPlugin;

/// The messages of chats.
pub struct GraphChatsPlugin;

/// How a windowed source presents itself.
pub open spec fn windowed_source(name: Seq<char>) -> DescribeView {
    DescribeView {
        name,
        link_namespace: "graph"@,
        fetch_style: FetchStyle::Windowed,
        auth_realm: Some("ms-graph"@),
        protocol: plugin::PROTOCOL,
    }
}

fn describe_windowed(name: &str) -> (d: Describe)
    ensures
        d.deep_view() == windowed_source(name@),
{
    Describe {
        name: name.to_string(),
        link_namespace: "graph".to_string(),
        fetch_style: FetchStyle::Windowed,
        auth_realm: Some("ms-graph".to_string()),
        protocol: plugin::PROTOCOL,
    }
}

/// The realm of a configuration. It derives from the configuration, so that
/// unrelated tenants share no token.
pub fn realm_of(config: &str) -> (r: Result<String, String>)
    ensures
        document::result_view(r) == (match config::config_of(config@) {
            Err(e) => Err(e),
            Ok(c) => Ok(config::realm_of(c.tenant, c.client_id)),
        }),
{
    match Config::from_ron(config) {
        Err(e) => Err(e),
        Ok(c) => Ok(auth_realm(c.tenant.as_str(), c.client_id.as_str())),
    }
}

/// Where a source of the family stands, by whether a token is cached.
pub fn token_status(cached: bool) -> (r: AuthStatus)
    ensures
        r.deep_view() == if cached {
            AuthStatusView::Authenticated("token cached (verified on fetch)"@)
        } else {
            AuthStatusView::NotAuthenticated(
                "no token — sign the realm in (source_auth_begin, or `kyyn source auth`)"@,
            )
        },
{
    if cached {
        AuthStatus::Authenticated("token cached (verified on fetch)".to_string())
    } else {
        AuthStatus::NotAuthenticated(
            "no token — sign the realm in (source_auth_begin, or `kyyn source auth`)".to_string(),
        )
    }
}

/// Whether a configuration is one for a source that is not about mail: it may not
/// narrow mail.
pub open spec fn without_mail_filter(
    read: Result<ConfigView, Seq<char>>,
    refusal: Seq<char>,
) -> Result<(), Seq<char>> {
    match read {
        Err(e) => Err(e),
        Ok(c) => if c.mail_filter is Some {
            Err(refusal)
        } else {
            Ok(())
        },
    }
}

/// The refusal of a mail filter by a source of this name.
pub open spec fn mail_filter_refusal(name: Seq<char>) -> Seq<char> {
    "mail_filter applies to the mail source ('graph-mail'), not "@ + name
}

/// Refuses a configuration that could not be read, or that narrows mail.
pub fn refuse_mail_filter(read: Result<Config, String>, refusal: String) -> (r: Result<(), String>)
    ensures
        plugin::outcome(r) == without_mail_filter(config::config_result(read), refusal@),
{
    match read {
        Err(e) => Err(e),
        Ok(c) => if c.mail_filter.is_some() {
            Err(refusal)
        } else {
            Ok(())
        },
    }
}

/// The configuration and the window of a run, where all could be read.
pub open spec fn setup_from(
    read: Result<ConfigView, Seq<char>>,
    from: Result<Instant, Seq<char>>,
    to: Result<Instant, Seq<char>>,
) -> Result<(ConfigView, Instant, Instant), Seq<char>> {
    match (read, from, to) {
        (Err(e), _, _) => Err(e),
        (_, Err(e), _) => Err("window from: "@ + e),
        (_, _, Err(e)) => Err("window to: "@ + e),
        (Ok(c), Ok(from), Ok(to)) => Ok((c, from, to)),
    }
}

/// The instant that a bound of a window names, or the message of `chrono`.
pub open spec fn bound(text: Seq<char>) -> Result<Instant, Seq<char>> {
    match window::rfc3339_utc(text) {
        Ok((secs, nanos)) => Ok(Instant { secs, nanos }),
        Err(e) => Err(e),
    }
}

/// The configuration and the window of a run, where all can be read.
pub open spec fn setup(config: Seq<char>, from: Seq<char>, to: Seq<char>) -> Result<
    (ConfigView, Instant, Instant),
    Seq<char>,
> {
    setup_from(config::config_of(config), bound(from), bound(to))
}

pub open spec fn time_result(r: Result<UtcTime, String>) -> Result<Instant, Seq<char>> {
    match r {
        Ok(t) => Ok(t@),
        Err(e) => Err(e@),
    }
}

pub open spec fn setup_result(r: Result<(Config, UtcTime, UtcTime), String>) -> Result<
    (ConfigView, Instant, Instant),
    Seq<char>,
> {
    match r {
        Ok((c, from, to)) => Ok((c.deep_view(), from@, to@)),
        Err(e) => Err(e@),
    }
}

/// The configuration and the window of a run, where all could be read.
pub fn gather_setup(
    read: Result<Config, String>,
    from: Result<UtcTime, String>,
    to: Result<UtcTime, String>,
) -> (r: Result<(Config, UtcTime, UtcTime), String>)
    ensures
        setup_result(r) == setup_from(
            config::config_result(read),
            time_result(from),
            time_result(to),
        ),
{
    let c = match read {
        Err(e) => {
            return Err(e);
        },
        Ok(c) => c,
    };
    let wf = match from {
        Err(e) => {
            return Err("window from: ".to_string().concat(e.as_str()));
        },
        Ok(t) => t,
    };
    let wt = match to {
        Err(e) => {
            return Err("window to: ".to_string().concat(e.as_str()));
        },
        Ok(t) => t,
    };
    Ok((c, wf, wt))
}

/// The configuration and the window of a run, where a window is asked for.
pub fn windowed_setup(config: &str, spec: &RunSpec) -> (r: Result<
    (Config, UtcTime, UtcTime),
    String,
>)
    ensures
        setup_result(r) == (match *spec {
            RunSpec::Window { from, to } => setup(config@, from@, to@),
            _ => Err("this is a windowed source"@),
        }),
{
    match spec {
        RunSpec::Window { from, to } => gather_setup(
            Config::from_ron(config),
            UtcTime::parse_rfc3339(from.as_str()),
            UtcTime::parse_rfc3339(to.as_str()),
        ),
        _ => Err("this is a windowed source".to_string()),
    }
}

/// The result of a windowed run.
pub open spec fn counted(items: Seq<ItemView>, what: Seq<char>) -> FetchResultView {
    FetchResultView {
        items,
        notes: text::decimal_text(items.len()) + " "@ + what,
        next_checkpoint: None,
    }
}

/// A windowed run brings all of its items, counts them, and leaves no checkpoint.
pub proof fn law_a_windowed_run_brings_all_items(items: Seq<ItemView>, what: Seq<char>)
    ensures
        counted(items, what).items == items,
        counted(items, what).next_checkpoint is None,
        counted(items, what).notes == text::decimal_text(items.len()) + " "@ + what,
{
}

/// The result of a windowed run: its items, counted in a note. The windows are the
/// engine's own, so there is no checkpoint.
pub fn windowed_result(items: Vec<Item>, what: &str) -> (r: FetchResult)
    ensures
        r.deep_view() == (FetchResultView {
            items: items.deep_view(),
            notes: text::decimal_text(items.len() as nat) + " "@ + what@,
            next_checkpoint: None,
        }),
        r.deep_view() == counted(items.deep_view(), what@),
{
    let notes = decimal(items.len() as u64).concat(" ").concat(what);
    FetchResult { items, notes, next_checkpoint: None }
}

impl GraphMailPlugin {
    /// How the source presents itself.
    pub fn describe(&self) -> (d: Describe)
        ensures
            d.deep_view() == windowed_source("graph-mail"@),
    {
        describe_windowed("graph-mail")
    }

    /// Refuses a configuration that cannot be read.
    pub fn validate_config(&self, config: &str) -> (r: Result<(), String>)
        ensures
            plugin::outcome(r) == (match config::config_of(config@) {
                Err(e) => Err(e),
                Ok(_) => Ok(()),
            }),
            document::tells_unknown_in(config::config_shape(), config@, document::refusal(r)),
    {
        match Config::from_ron(config) {
            Err(e) => Err(e),
            Ok(_) => Ok(()),
        }
    }

    /// The result of a run.
    pub fn result(&self, items: Vec<Item>) -> (r: FetchResult)
        ensures
            r.deep_view() == (FetchResultView {
                items: items.deep_view(),
                notes: text::decimal_text(items.len() as nat) + " "@ + "emails"@,
                next_checkpoint: None,
            }),
    {
        windowed_result(items, "emails")
    }
}

impl GraphCalendarPlugin {
    /// How the source presents itself.
    pub fn describe(&self) -> (d: Describe)
        ensures
            d.deep_view() == windowed_source("graph-calendar"@),
    {
        describe_windowed("graph-calendar")
    }

    /// Refuses a configuration that cannot be read, or that narrows mail.
    pub fn validate_config(&self, config: &str) -> (r: Result<(), String>)
        ensures
            plugin::outcome(r) == without_mail_filter(
                config::config_of(config@),
                mail_filter_refusal("graph-calendar"@),
            ),
            document::tells_unknown_in(config::config_shape(), config@, document::refusal(r)),
    {
        refuse_mail_filter(
            Config::from_ron(config),
            "mail_filter applies to the mail source ('graph-mail'), not ".to_string().concat(
                "graph-calendar",
            ),
        )
    }

    /// The result of a run.
    pub fn result(&self, items: Vec<Item>) -> (r: FetchResult)
        ensures
            r.deep_view() == (FetchResultView {
                items: items.deep_view(),
                notes: text::decimal_text(items.len() as nat) + " "@ + "events"@,
                next_checkpoint: None,
            }),
    {
        windowed_result(items, "events")
    }
}

impl GraphMeetingsPlugin {
    /// How the source presents itself.
    pub fn describe(&self) -> (d: Describe)
        ensures
            d.deep_view() == windowed_source("graph-meetings"@),
    {
        describe_windowed("graph-meetings")
    }

    /// Refuses a configuration that cannot be read, or that narrows mail.
    pub fn validate_config(&self, config: &str) -> (r: Result<(), String>)
        ensures
            plugin::outcome(r) == without_mail_filter(
                config::config_of(config@),
                mail_filter_refusal("graph-meetings"@),
            ),
            document::tells_unknown_in(config::config_shape(), config@, document::refusal(r)),
    {
        refuse_mail_filter(
            Config::from_ron(config),
            "mail_filter applies to the mail source ('graph-mail'), not ".to_string().concat(
                "graph-meetings",
            ),
        )
    }

    /// The result of a run.
    pub fn result(&self, items: Vec<Item>) -> (r: FetchResult)
        ensures
            r.deep_view() == (FetchResultView {
                items: items.deep_view(),
                notes: text::decimal_text(items.len() as nat) + " "@
                    + "meetings with transcripts"@,
                next_checkpoint: None,
            }),
    {
        windowed_result(items, "meetings with transcripts")
    }
}

impl GraphChatsPlugin {
    /// How the source presents itself.
    pub fn describe(&self) -> (d: Describe)
        ensures
            d.deep_view() == windowed_source("graph-chats"@),
    {
        describe_windowed("graph-chats")
    }

    /// Refuses a configuration that cannot be read, or that narrows mail.
    pub fn validate_config(&self, config: &str) -> (r: Result<(), String>)
        ensures
            plugin::outcome(r) == without_mail_filter(
                config::config_of(config@),
                "mail_filter applies to the mail source ('graph'), not graph-chats"@,
            ),
            document::tells_unknown_in(config::config_shape(), config@, document::refusal(r)),
    {
        refuse_mail_filter(
            Config::from_ron(config),
            "mail_filter applies to the mail source ('graph'), not graph-chats".to_string(),
        )
    }

    /// The result of a run.
    pub fn result(&self, items: Vec<Item>) -> (r: FetchResult)
        ensures
            r.deep_view() == (FetchResultView {
                items: items.deep_view(),
                notes: text::decimal_text(items.len() as nat) + " "@ + "chat messages in window"@,
                next_checkpoint: None,
            }),
    {
        windowed_result(items, "chat messages in window")
    }
}

/// A mail filter is never accepted and ignored: a configuration that has one is
/// good for mail and for no other source, whatever the refusal says.
pub proof fn law_a_mail_filter_is_for_mail_alone(config: Seq<char>, refusal: Seq<char>)
    requires
        config::config_of(config) matches Ok(c) && c.mail_filter is Some,
    ensures
        without_mail_filter(config::config_of(config), refusal) == Err::<(), Seq<char>>(refusal),
{
}

/// A run of a windowed source is set up exactly where its configuration and both bounds
/// of its window can be read, and then with that configuration and these bounds, each in
/// its own place; otherwise the first of the three that cannot be read is told.
pub proof fn law_a_run_has_its_own_window(
    read: Result<ConfigView, Seq<char>>,
    from: Result<Instant, Seq<char>>,
    to: Result<Instant, Seq<char>>,
)
    ensures
        setup_from(read, from, to) is Ok <==> read is Ok && from is Ok && to is Ok,
        setup_from(read, from, to) matches Ok(s) ==> Ok::<ConfigView, Seq<char>>(s.0) == read && Ok::<
            Instant,
            Seq<char>,
        >(s.1) == from && Ok::<Instant, Seq<char>>(s.2) == to,
        read matches Err(e) ==> setup_from(read, from, to) == Err::<
            (ConfigView, Instant, Instant),
            Seq<char>,
        >(e),
        read is Ok && from is Err ==> setup_from(read, from, to) == Err::<
            (ConfigView, Instant, Instant),
            Seq<char>,
        >("window from: "@ + from->Err_0),
        read is Ok && from is Ok && to is Err ==> setup_from(read, from, to) == Err::<
            (ConfigView, Instant, Instant),
            Seq<char>,
        >("window to: "@ + to->Err_0),
{
}

/// A configuration without a mail filter is good for every source, and one that cannot
/// be read for none, for its own reason.
pub proof fn law_a_configuration_without_a_filter_is_good(
    read: Result<ConfigView, Seq<char>>,
    refusal: Seq<char>,
)
    ensures
        without_mail_filter(read, refusal) is Ok <==> read is Ok && read->Ok_0.mail_filter is None,
        read matches Err(e) ==> without_mail_filter(read, refusal) == Err::<(), Seq<char>>(e),
{
}

/// Each bound of a window is read on its own, as an instant.
pub proof fn law_each_bound_is_read_on_its_own(
    config: Seq<char>,
    from: Seq<char>,
    to: Seq<char>,
    a: Instant,
    b: Instant,
    c: ConfigView,
)
    requires
        config::config_of(config) == Ok::<ConfigView, Seq<char>>(c),
        window::rfc3339_utc(from) == Ok::<(int, int), Seq<char>>((a.secs, a.nanos)),
        window::rfc3339_utc(to) == Ok::<(int, int), Seq<char>>((b.secs, b.nanos)),
    ensures
        setup(config, from, to) == Ok::<(ConfigView, Instant, Instant), Seq<char>>((c, a, b)),
{
}

/// The windowed sources present themselves under their own names, in one namespace and
/// one realm.
pub proof fn law_windowed_sources_share_a_realm(name: Seq<char>, other: Seq<char>)
    ensures
        windowed_source(name).name == name,
        windowed_source(name).fetch_style is Windowed,
        windowed_source(name).auth_realm == Some("ms-graph"@),
        windowed_source(name).link_namespace == windowed_source(other).link_namespace,
        windowed_source(name).protocol == plugin::PROTOCOL,
{
}

} // verus!
