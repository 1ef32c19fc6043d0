//! Configuration documents, the Graph settings, sign-in and the plugin table.

use kyyn_plugins::document::{decode, read_document, Document, Kind, Shape, Slot, Slots};
use kyyn_plugins::graph::auth;
use kyyn_plugins::graph::auth::{DeviceCode, SignIn, TokenCache, TokenReply};
use kyyn_plugins::graph::config::{auth_realm, Config, DEFAULT_CLIENT_ID};
use kyyn_plugins::graph::explicit;
use kyyn_plugins::graph::plugins::{
    gather_setup, realm_of, token_status, windowed_setup, GraphCalendarPlugin, GraphChatsPlugin,
    GraphMailPlugin, GraphMeetingsPlugin,
};
use kyyn_plugins::graph::window::UtcTime;
use kyyn_plugins::plugin::{AuthPollResult, AuthStatus, FetchStyle, RunSpec};
use kyyn_plugins::tap::plugin_table;

// Configurations with everything said.

#[test]
fn unknown_config_keys_fail_by_name() {
    let err = explicit::Config::from_ron(r#"(client_id: "c", tenant: "t", search: "BEE")"#).err().unwrap();
    assert!(err.contains("search"), "{err}");
}

#[test]
fn mail_filter_parses_and_stays_optional() {
    let cfg = explicit::Config::from_ron(
        r#"(client_id: "c", tenant: "t", mail_filter: Some("contains(subject, 'Sales Update')"))"#,
    )
    .ok()
    .unwrap();
    assert_eq!(
        cfg.mail_filter.as_deref(),
        Some("contains(subject, 'Sales Update')")
    );
    assert!(
        explicit::Config::from_ron(r#"(client_id: "c", tenant: "t")"#)
            .ok()
            .unwrap()
            .mail_filter
            .is_none()
    );
}

#[test]
fn an_explicit_config_needs_its_app() {
    let refuse = |c: &str| explicit::Config::from_ron(c).err().unwrap();
    assert_eq!(
        refuse("()"),
        "source config shape (need client_id, tenant, owner_addresses): Expected struct Config but found a unit value instead"
    );
    assert_eq!(
        refuse(r#"(client_id: "c")"#),
        "source config shape (need client_id, tenant, owner_addresses): Unexpected missing field named `tenant`"
    );
    assert!(refuse("(").starts_with("parsing source config: "));
    let bare = refuse(r#"(client_id: "c", tenant: "t", mail_filter: "bare")"#);
    assert!(bare.starts_with("source config shape"), "{bare}");
    let cfg = explicit::Config::from_ron(r#"(client_id: "c", tenant: "t", owner_addresses: ["Me@X"])"#)
        .ok()
        .unwrap();
    assert!(cfg.is_own_address(Some("me@x")));
    assert!(!cfg.is_own_address(None));
    assert_eq!(cfg.token_url(), "https://login.microsoftonline.com/t/oauth2/v2.0/token");
    assert_eq!(cfg.device_code_url(), "https://login.microsoftonline.com/t/oauth2/v2.0/devicecode");
}

// Configurations with defaults.

#[test]
fn config_unknown_config_keys_fail_by_name() {
    let err = Config::from_ron(r#"(client_id: "c", tenant: "t", search: "BEE")"#).err().unwrap();
    assert!(err.contains("search"), "{err}");
}

#[test]
fn config_mail_filter_parses_and_stays_optional() {
    let cfg = Config::from_ron(
        r#"(client_id: "c", tenant: "t", mail_filter: Some("contains(subject, 'Sales Update')"))"#,
    )
    .ok()
    .unwrap();
    assert_eq!(
        cfg.mail_filter.as_deref(),
        Some("contains(subject, 'Sales Update')")
    );
    assert!(
        Config::from_ron(r#"(client_id: "c", tenant: "t")"#)
            .ok()
            .unwrap()
            .mail_filter
            .is_none()
    );
}

#[test]
fn defaults_are_the_shared_multitenant_app() {
    let cfg = Config::from_ron("()").ok().unwrap();
    assert_eq!(cfg.client_id, DEFAULT_CLIENT_ID);
    assert_eq!(cfg.tenant, "organizations");
    assert!(cfg.device_code_url().contains("/organizations/"));
    let absent = Config::from_ron("()").ok().unwrap();
    assert_eq!(
        absent.tenant, "organizations",
        "absent config = all defaults"
    );
    let own = Config::from_ron(r#"(client_id: "mine", tenant: "t1")"#).ok().unwrap();
    assert_eq!(own.client_id, "mine");
    assert_eq!(own.tenant, "t1");
}

#[test]
fn mail_filters_may_be_bare() {
    let filter = |c: &str| Config::from_ron(c).ok().unwrap().mail_filter;
    assert_eq!(filter(r#"(mail_filter: "bare")"#).as_deref(), Some("bare"));
    assert_eq!(filter("(mail_filter: None)"), None);
    assert_eq!(filter(r#"{"mail_filter": Some("x")}"#).as_deref(), Some("x"));
    let err = Config::from_ron("(mail_filter: 5)").err().unwrap();
    assert!(err.ends_with("data did not match any variant of untagged enum Lenient"), "{err}");
}

#[test]
fn own_addresses_ignore_case() {
    let cfg = Config::from_ron(r#"(owner_addresses: ["A@x", "b@Y"])"#).ok().unwrap();
    assert!(cfg.is_own_address(Some("a@X")));
    assert!(cfg.is_own_address(Some("B@y")));
    assert!(!cfg.is_own_address(Some("c@y")));
}

#[test]
fn realms_come_from_the_configuration() {
    assert_eq!(auth_realm("t", "c"), "ms-graph:t:c");
    assert_eq!(realm_of(r#"(client_id: "c", tenant: "t")"#), Ok("ms-graph:t:c".to_string()));
    assert_ne!(realm_of(r#"(client_id: "c", tenant: "u")"#), realm_of(r#"(client_id: "c", tenant: "t")"#));
}

// Documents in general.

fn shape() -> Shape {
    Shape {
        title: "Config",
        names: &["a", "b", "c"],
        kinds: vec![Kind::Text, Kind::Number, Kind::Texts],
        required: 1,
    }
}

fn fields(text: &str) -> Result<Slots, String> {
    decode(&shape(), &read_document(text).ok().unwrap())
}

fn refused(text: &str) -> String {
    fields(text).err().unwrap()
}

#[test]
fn every_entry_is_kept_wherever_it_stands() {
    for text in [r#"(a: "x", b: 5)"#, r#"(b: 5, a: "x")"#, r#"{"b": 5, "a": "x"}"#, r#"["x", 5]"#] {
        let slots = fields(text).ok().unwrap();
        assert_eq!(slots.len(), 3);
        assert!(matches!(&slots[0], Some(Slot::Text(s)) if s == "x"), "{text}");
        assert!(matches!(&slots[1], Some(Slot::Number(5))), "{text}");
        assert!(slots[2].is_none(), "{text}");
    }
}

#[test]
fn documents_are_refused_in_the_words_of_ron() {
    for (text, message) in [
        (r#"(a: "x", d: 1)"#, "Unexpected field named `d`, expected one of `a`, `b`, or `c` instead"),
        ("(b: 1)", "Unexpected missing field named `a`"),
        ("(a: 1)", "Expected a string but found the unsigned integer `1` instead"),
        (r#"["x", 1, [], 2]"#, "Expected a sequence of length 3 but found 4 elements instead"),
        ("[]", "Expected struct Config with 3 elements but found zero elements instead"),
        ("true", "Expected struct Config but found the boolean `true` instead"),
        ("()", "Expected struct Config but found a unit value instead"),
    ] {
        assert_eq!(refused(text), message, "{text}");
    }
}

#[test]
fn an_unknown_key_stands_in_the_refusal() {
    let ascii = (0u8..128).map(char::from);
    let plain = ascii.filter(|c| c.is_ascii_alphanumeric() || "_.+-".contains(*c));
    let mut keys: Vec<String> = plain.map(|c| c.to_string()).filter(|c| !"abc".contains(c.as_str())).collect();
    keys.extend(["bogus", "git-ref", "a.b", "x+y", "_9", "9lives", "-", "A", "ab"].map(String::from));
    for key in keys {
        let text = format!(r#"{{"{key}": 1}}"#);
        assert!(refused(&text).contains(&key), "{text}");
        assert!(refused(&text).starts_with("Unexpected field named `"), "{text}");
        let error = Config::from_ron(&text).err().unwrap();
        assert!(error.contains(&key), "{error}");
    }
    // What is at fault before the key comes first; RON keeps a table by its keys.
    assert!(!refused(r#"{"a": 1, "z": 1}"#).contains("`z`"));
    assert!(refused(r#"{"a": "x", "z": 1}"#).contains("`z`"));
}

#[test]
fn fields_may_be_given_by_number() {
    let slots = fields(r#"{0: "x", 1: 5}"#).ok().unwrap();
    assert!(matches!(&slots[0], Some(Slot::Text(s)) if s == "x"));
    assert!(matches!(&slots[1], Some(Slot::Number(5))));
    assert_eq!(
        refused(r#"{3: "x"}"#),
        "Expected field index 0 <= i < 3 but found the unsigned integer `3` instead"
    );
    assert_eq!(refused(r#"{0: "x", "a": "y"}"#), "Unexpected duplicate field named `a`");
    assert_eq!(
        refused(r#"{true: "x"}"#),
        "Expected field identifier but found the boolean `true` instead"
    );
    assert_eq!(
        refused(r#"{-1: "x"}"#),
        "Expected field identifier but found the signed integer `-1` instead"
    );
}

#[test]
fn parse_errors_are_those_of_ron() {
    let ours = read_document("(").err().unwrap();
    let theirs = ron::from_str::<ron::Value>("(").unwrap_err().to_string();
    assert_eq!(ours, theirs);
    assert!(matches!(read_document("()"), Ok(Document::Unit(_))));
    assert!(matches!(read_document("5"), Ok(Document::Other(_))));
}

// Sign-in.

fn text(s: &str) -> String {
    s.to_string()
}

#[test]
fn device_codes_become_challenges() {
    assert_eq!(auth::lifetime_secs(-5), 0);
    assert_eq!(auth::lifetime_secs(900), 900);
    let begin = auth::device_begin(DeviceCode {
        device_code: text("d"),
        user_code: text("u"),
        verification_uri: text("v"),
        interval: 5,
        expires_in: 900,
        message: text("m"),
    });
    let ch = auth::challenge(begin);
    assert_eq!(
        (ch.handle.as_str(), ch.user_code.as_str(), ch.verification_url.as_str(), ch.expires_in_secs),
        ("d", "u", "v", 900)
    );
    assert_eq!(
        auth::device_code_failure(400),
        "device-code request failed (HTTP 400) — check client_id/tenant in the source's config (sources.ron)"
    );
}

#[test]
fn sign_in_replies() {
    let granted = |refresh: Option<&str>| TokenReply::Granted {
        access_token: text("a"),
        refresh_token: refresh.map(String::from),
    };
    match auth::device_poll(granted(Some("r"))) {
        SignIn::Done(c) => {
            assert_eq!((c.access_token.as_str(), c.refresh_token.as_str()), ("a", "r"));
            assert_eq!(
                auth::poll_result(&SignIn::Done(c)),
                AuthPollResult::Done(text("signed in"))
            );
        }
        _ => panic!("not signed in"),
    }
    let step = auth::device_poll(granted(None));
    assert_eq!(
        auth::poll_result(&step),
        AuthPollResult::Failed(text(
            "no refresh_token returned — is offline_access among the app's scopes?"
        ))
    );
    let step = auth::device_poll(TokenReply::Refused(Some(text("authorization_pending"))));
    assert!(matches!(step, SignIn::Again { pause_secs: 0 }));
    assert_eq!(auth::poll_result(&step), AuthPollResult::Pending);
    let step = auth::device_poll(TokenReply::Refused(Some(text("slow_down"))));
    assert!(matches!(step, SignIn::Again { pause_secs: 5 }));
    let step = auth::device_poll(TokenReply::Refused(Some(text("expired_token"))));
    assert_eq!(
        auth::poll_result(&step),
        AuthPollResult::Failed(text("device login failed: expired_token"))
    );
    let step = auth::device_poll(TokenReply::Refused(None));
    assert_eq!(
        auth::poll_result(&step),
        AuthPollResult::Failed(text("device login failed (unrecognised response)"))
    );
}

#[test]
fn a_refresh_keeps_the_old_refresh_token_where_none_comes() {
    let cache = || TokenCache { access_token: text("a"), refresh_token: text("r") };
    let kept = auth::refresh_access(cache(), text("b"), None);
    assert_eq!((kept.access_token.as_str(), kept.refresh_token.as_str()), ("b", "r"));
    let rotated = auth::refresh_access(cache(), text("b"), Some(text("s")));
    assert_eq!(rotated.refresh_token, "s");
    assert_eq!(
        auth::refresh_failure(400),
        "token refresh failed (HTTP 400) — run `kyyn source auth <name>` to sign in again"
    );
    assert_eq!(
        auth::require_cache(None).err().unwrap(),
        "no token cache found — run `kyyn source auth <name>` first"
    );
    assert!(auth::require_cache(Some(cache())).is_ok());
    assert_eq!(
        auth::unreadable_cache("e"),
        "Warning: token cache unreadable (e); sign in again with `kyyn source auth <name>`"
    );
    let granted = TokenReply::Granted { access_token: text("a"), refresh_token: Some(text("r")) };
    assert!(matches!(auth::device_step(true, granted), SignIn::Failed(e) if e == auth::expired_failure()));
    let granted = TokenReply::Granted { access_token: text("a"), refresh_token: Some(text("r")) };
    assert!(matches!(auth::device_step(false, granted), SignIn::Done(c) if c.refresh_token == "r"));
    assert_eq!(
        auth::expired_failure(),
        "device code expired — run `kyyn source auth <name>` to sign in again"
    );
}

#[test]
fn graph_forms() {
    let cfg = Config::from_ron(r#"(client_id: "c", tenant: "t")"#).ok().unwrap();
    assert_eq!(
        auth::device_code_form(&cfg),
        vec![(text("client_id"), text("c")), (text("scope"), text(auth::SCOPES))]
    );
    assert_eq!(
        auth::token_form(&cfg, "d"),
        vec![
            (text("grant_type"), text("urn:ietf:params:oauth:grant-type:device_code")),
            (text("client_id"), text("c")),
            (text("device_code"), text("d")),
        ]
    );
    let cache = TokenCache { access_token: text("a"), refresh_token: text("r") };
    assert_eq!(
        auth::refresh_form(&cfg, &cache),
        vec![
            (text("grant_type"), text("refresh_token")),
            (text("client_id"), text("c")),
            (text("refresh_token"), text("r")),
            (text("scope"), text(auth::SCOPES)),
        ]
    );
}

// The Graph plugins.

#[test]
fn chats_reject_mail_filter() {
    let cfg = r#"(client_id: "c", tenant: "t", mail_filter: Some("x eq 'y'"))"#;
    assert!(GraphMailPlugin.validate_config(cfg).is_ok());
    let err = GraphChatsPlugin.validate_config(cfg).unwrap_err();
    assert!(err.contains("mail_filter"), "{err}");
}

#[test]
fn a_mail_filter_is_for_mail_alone() {
    let cfg = r#"(mail_filter: "x eq 'y'")"#;
    assert_eq!(
        GraphCalendarPlugin.validate_config(cfg).unwrap_err(),
        "mail_filter applies to the mail source ('graph-mail'), not graph-calendar"
    );
    assert_eq!(
        GraphMeetingsPlugin.validate_config(cfg).unwrap_err(),
        "mail_filter applies to the mail source ('graph-mail'), not graph-meetings"
    );
    assert_eq!(
        GraphChatsPlugin.validate_config(cfg).unwrap_err(),
        "mail_filter applies to the mail source ('graph'), not graph-chats"
    );
    assert!(GraphCalendarPlugin.validate_config("()").is_ok());
}

#[test]
fn windows_are_read_off_the_request() {
    let spec = |from: &str, to: &str| RunSpec::Window { from: text(from), to: text(to) };
    let (cfg, from, to) =
        windowed_setup("()", &spec("1970-01-01T00:00:10Z", "1970-01-01T01:00:00+01:00")).ok().unwrap();
    assert_eq!(cfg.tenant, "organizations");
    assert_eq!((from.timestamp(), to.timestamp()), (10, 0));
    let err = windowed_setup("()", &spec("x", "1970-01-01T00:00:00Z")).err().unwrap();
    assert!(err.starts_with("window from: "), "{err}");
    let err = windowed_setup("()", &spec("1970-01-01T00:00:00Z", "y")).err().unwrap();
    assert!(err.starts_with("window to: "), "{err}");
    assert_eq!(
        windowed_setup("()", &RunSpec::Snapshot).err().unwrap(),
        "this is a windowed source"
    );
    let t = UtcTime::from_timestamp(0, 0).unwrap();
    assert_eq!(
        gather_setup(Ok(cfg), Ok(t), Err(text("bad"))).err().unwrap(),
        "window to: bad"
    );
}

#[test]
fn graph_results_count_their_items() {
    assert_eq!(GraphMailPlugin.result(Vec::new()).notes, "0 emails");
    assert_eq!(GraphCalendarPlugin.result(Vec::new()).notes, "0 events");
    assert_eq!(GraphMeetingsPlugin.result(Vec::new()).notes, "0 meetings with transcripts");
    assert_eq!(GraphChatsPlugin.result(Vec::new()).notes, "0 chat messages in window");
    assert_eq!(
        token_status(true),
        AuthStatus::Authenticated(text("token cached (verified on fetch)"))
    );
    assert_eq!(
        token_status(false),
        AuthStatus::NotAuthenticated(text(
            "no token — sign the realm in (source_auth_begin, or `kyyn source auth`)"
        ))
    );
}

#[test]
fn the_table_serves_every_source_under_its_name() {
    for name in [
        "sweep",
        "git-repo",
        "salesforce",
        "kb",
        "graph-mail",
        "graph-calendar",
        "graph-meetings",
        "graph-chats",
        "sharepoint-file",
    ] {
        let source = plugin_table(name).expect("served");
        assert_eq!(source.describe().name, name);
    }
    assert!(plugin_table("pack").is_none());
    assert!(plugin_table("Sweep").is_none());
    let mail = plugin_table("graph-mail").unwrap().describe();
    assert_eq!(mail.fetch_style, FetchStyle::Windowed);
    assert_eq!(mail.auth_realm.as_deref(), Some("ms-graph"));
    assert_eq!(mail.link_namespace, "graph");
}
