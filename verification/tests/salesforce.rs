//! The `salesforce` source.

use kyyn_plugins::graph::urls::percent_encode;
use kyyn_plugins::plugin::{AuthPollResult, AuthStatus, FetchStyle, RunSpec};
use kyyn_plugins::salesforce;
use kyyn_plugins::salesforce::{
    challenge_of, device_code_form, host_of, make_item, make_poll, make_refreshed, poll_form, poll_outcome,
    refresh_form, refresh_with, refreshed_token, token_url, Answer, Config, Poll, SalesforcePlugin, SoqlRun,
    StoredToken,
};

const ACME: &str = r#"(instance_url: "https://acme.my.salesforce.com", client_id: "cid", query: "SELECT Id FROM A")"#;

fn acme() -> Config {
    salesforce::parse_config(ACME).unwrap()
}

#[test]
fn config_gates_and_realm_derivation() {
    let ok = r#"(instance_url: "https://acme.my.salesforce.com", client_id: "3MVG9…", query: "SELECT Id, Name FROM Account")"#;
    assert!(SalesforcePlugin.validate_config(ok).is_ok());
    assert_eq!(
        SalesforcePlugin.config_auth_realm(ok).unwrap(),
        "salesforce:acme.my.salesforce.com:3MVG9…"
    );
    for bad in [
        r#"(instance_url: "http://insecure", client_id: "c", query: "SELECT Id FROM A")"#,
        r#"(instance_url: "https://x", client_id: "c", query: "DELETE FROM A")"#,
        r#"(instance_url: "https://x", client_id: "", query: "SELECT Id FROM A")"#,
        r#"(instance_url: "https://x", client_id: "c", query: "SELECT Id FROM A", soql: "y")"#,
    ] {
        assert!(SalesforcePlugin.validate_config(bad).is_err(), "{bad}");
    }
}

#[test]
fn soql_url_is_percent_encoded() {
    assert_eq!(
        percent_encode("SELECT Id FROM Account WHERE Name = 'Acme & Co'"),
        "SELECT%20Id%20FROM%20Account%20WHERE%20Name%20%3D%20%27Acme%20%26%20Co%27"
    );
}

#[test]
fn refusals_name_their_reason() {
    let refuse = |c: &str| SalesforcePlugin.validate_config(c).unwrap_err();
    assert_eq!(
        refuse(r#"(instance_url: "http://insecure", client_id: "c", query: "SELECT Id FROM A")"#),
        "instance_url must be an https:// URL (the org's My Domain)"
    );
    assert_eq!(
        refuse(r#"(instance_url: "https://x", client_id: " ", query: "SELECT Id FROM A")"#),
        "client_id (the Connected App's consumer key) is required"
    );
    assert_eq!(
        refuse(r#"(instance_url: "https://x", client_id: "c", query: "DELETE FROM A")"#),
        "query must be a SOQL SELECT"
    );
    assert_eq!(
        refuse(r#"(instance_url: "https://x", client_id: "c", query: " sElEcT Id", kind: "a b")"#),
        "kind 'a b' must be a bare token"
    );
    assert!(refuse("(").starts_with("salesforce config: "));
    assert!(refuse(r#"(instance_url: "https://x")"#).starts_with(
        "salesforce config shape (instance_url, client_id, query; optional kind, api_version, id_field): "
    ));
}

#[test]
fn salesforce_defaults_and_description() {
    let c = acme();
    assert_eq!((c.kind.as_str(), c.api_version.as_str(), c.id_field.as_str()), ("sf-record", "v62.0", "Id"));
    let d = SalesforcePlugin.describe();
    assert_eq!(d.name, "salesforce");
    assert_eq!(d.link_namespace, "sf");
    assert_eq!(d.fetch_style, FetchStyle::Snapshot);
    assert_eq!(d.auth_realm.as_deref(), Some("salesforce"));
    assert_eq!(
        SalesforcePlugin.auth_status(true),
        AuthStatus::Authenticated("token cached (verified on fetch)".to_string())
    );
    assert_eq!(
        SalesforcePlugin.auth_status(false),
        AuthStatus::NotAuthenticated(
            "no token — sign the realm in (source_auth_begin, or `kindred source auth`)".to_string()
        )
    );
    let refused = SalesforcePlugin.plan(&RunSpec::Sweep, ACME).err();
    assert_eq!(refused.as_deref(), Some("salesforce is a snapshot source"));
    assert!(SalesforcePlugin.plan(&RunSpec::Snapshot, ACME).is_ok());
}

#[test]
fn realms_tell_organizations_apart() {
    let realm = |url: &str, id: &str| {
        let c = format!(r#"(instance_url: "{url}", client_id: "{id}", query: "SELECT Id FROM A")"#);
        SalesforcePlugin.config_auth_realm(&c).unwrap()
    };
    assert_eq!(realm("https://a.com/x", "c"), realm("https://a.com", "c"));
    assert_ne!(realm("https://a.com", "c"), realm("https://b.com", "c"));
    assert_ne!(realm("https://a.com", "c"), realm("https://a.com", "d"));
}

#[test]
fn hosts() {
    assert_eq!(host_of("https://acme.my.salesforce.com/x/y"), "acme.my.salesforce.com");
    assert_eq!(host_of("http://h"), "h");
    assert_eq!(host_of("https://https://http://h/z"), "h");
    assert_eq!(host_of("h/x"), "h");
    assert_eq!(host_of(""), "");
}

fn pairs(form: &[(String, String)]) -> Vec<(&str, &str)> {
    form.iter().map(|(k, v)| (k.as_str(), v.as_str())).collect()
}

#[test]
fn forms() {
    let c = acme();
    assert_eq!(token_url(&c), "https://acme.my.salesforce.com/services/oauth2/token");
    assert_eq!(
        pairs(&device_code_form(&c)),
        vec![("response_type", "device_code"), ("client_id", "cid"), ("scope", "api refresh_token")]
    );
    assert_eq!(
        pairs(&poll_form(&c, "h")),
        vec![("grant_type", "device"), ("client_id", "cid"), ("code", "h")]
    );
    assert_eq!(
        pairs(&refresh_form(&c, "r")),
        vec![("grant_type", "refresh_token"), ("client_id", "cid"), ("refresh_token", "r")]
    );
}

#[test]
fn challenges() {
    let reply = br#"{"verification_uri":"https://v","user_code":"U","device_code":"D","interval":5}"#;
    let ch = challenge_of(reply).unwrap();
    assert_eq!(
        (ch.verification_url.as_str(), ch.user_code.as_str(), ch.handle.as_str(), ch.expires_in_secs),
        ("https://v", "U", "D", 600)
    );
    assert_eq!(
        challenge_of(br#"{ "error" : "x" }"#).err().unwrap(),
        r#"device flow refused: {"error":"x"}"#
    );
    assert_eq!(challenge_of(br#"{"verification_uri":"v"}"#).err().unwrap(), "no user_code");
    assert_eq!(
        challenge_of(br#"{"verification_uri":"v","user_code":"u","device_code":1}"#).err().unwrap(),
        "no device_code"
    );
    assert_eq!(challenge_of(b"nonsense").err().unwrap(), "error decoding response body");
}

fn report(reply: &[u8]) -> AuthPollResult {
    match poll_outcome(reply).unwrap() {
        Poll::Report(p) => p,
        Poll::SignedIn(_) => panic!("signed in"),
    }
}

#[test]
fn polls() {
    match poll_outcome(br#"{"access_token":"a","refresh_token":"r"}"#).unwrap() {
        Poll::SignedIn(t) => {
            assert_eq!(t.access_token, "a");
            assert_eq!(t.refresh_token.as_deref(), Some("r"));
        }
        Poll::Report(_) => panic!("no token"),
    }
    assert_eq!(report(br#"{"error":"authorization_pending"}"#), AuthPollResult::Pending);
    assert_eq!(report(br#"{"error":"slow_down"}"#), AuthPollResult::Pending);
    assert_eq!(
        report(br#"{"error":"denied","error_description":"no"}"#),
        AuthPollResult::Failed("denied: no".to_string())
    );
    assert_eq!(report(br#"{"error":"denied"}"#), AuthPollResult::Failed("denied: ".to_string()));
    assert_eq!(
        report(br#"{"b": 1, "a": [true]}"#),
        AuthPollResult::Failed(r#"unexpected reply: {"a":[true],"b":1}"#.to_string())
    );
    assert_eq!(poll_outcome(b"").err().unwrap(), "error decoding response body");
    match make_poll("all", None, None, None, None) {
        Poll::Report(p) => assert_eq!(p, AuthPollResult::Failed("unexpected reply: all".to_string())),
        Poll::SignedIn(_) => panic!("no token"),
    }
}

#[test]
fn sign_in_ends_when_it_is_over() {
    assert_eq!(
        SalesforcePlugin.sign_in(true, &AuthPollResult::Pending),
        Some(Err("sign-in code expired".to_string()))
    );
    assert_eq!(SalesforcePlugin.sign_in(false, &AuthPollResult::Pending), None);
    assert_eq!(
        SalesforcePlugin.sign_in(false, &AuthPollResult::Done("signed in".to_string())),
        Some(Ok(()))
    );
    assert_eq!(
        SalesforcePlugin.sign_in(false, &AuthPollResult::Failed("m".to_string())),
        Some(Err("m".to_string()))
    );
}

#[test]
fn refreshing_keeps_the_refresh_token() {
    let stored = StoredToken { access_token: "a".to_string(), refresh_token: Some("r".to_string()) };
    let refresh = refresh_with(&stored).unwrap();
    let t = refreshed_token(br#"{"access_token":"b","refresh_token":"other"}"#, refresh).unwrap();
    assert_eq!(t.access_token, "b");
    assert_eq!(t.refresh_token.as_deref(), Some("r"));
    let none = StoredToken { access_token: "a".to_string(), refresh_token: None };
    assert_eq!(
        refresh_with(&none).unwrap_err(),
        "token expired and no refresh token — sign in again"
    );
    assert_eq!(
        refreshed_token(br#"{"e":1}"#, "r".to_string()).err().unwrap(),
        r#"token refresh failed — sign in again ({"e":1})"#
    );
    assert_eq!(
        refreshed_token(b"x", "r".to_string()).err().unwrap(),
        "error decoding response body"
    );
    assert!(make_refreshed("all", Some("t".to_string()), "r".to_string()).is_ok());
}

#[test]
fn pages_are_gathered_in_order() {
    let run = SoqlRun::begin(&acme());
    assert_eq!(
        run.next_url().unwrap(),
        "https://acme.my.salesforce.com/services/data/v62.0/query?q=SELECT%20Id%20FROM%20A"
    );
    let run = run
        .page(br#"{"records":[{"Id":"1","Name":"N","attributes":{"type":"Account"}},{"Name":7}],"nextRecordsUrl":"/p2"}"#)
        .ok()
        .unwrap();
    assert_eq!(run.next_url().unwrap(), "https://acme.my.salesforce.com/p2");
    assert_eq!(run.progress(), "2 records (1 pages)…");
    let run = run.page(br#"{"records":[{"Id":"3"}]}"#).ok().unwrap();
    assert!(run.next_url().is_none());
    assert_eq!(run.progress(), "3 records returned");
    assert_eq!(run.records()[2], r#"{"Id":"3"}"#);
    let stored = run.records().clone();
    assert!(run.is_bundle(&stored));
    assert!(!run.is_bundle(&stored[1..].to_vec()));
    assert!(!run.is_bundle(&stored.iter().rev().cloned().collect()));
    let result = run.finish();
    let ids: Vec<&str> = result.items.iter().map(|i| i.id.as_str()).collect();
    assert_eq!(ids, vec!["1", "row-1", "3"]);
    assert_eq!(result.items[0].meta, "Account · N");
    assert_eq!(result.items[1].meta, "record · ");
    assert_eq!(result.items[0].locator.as_deref(), Some("1"));
    assert_eq!(result.items[0].files, vec!["records.json".to_string()]);
    assert_eq!(result.items[0].kind, "sf-record");
    assert_eq!(result.notes, "3 record(s) from SOQL");
    assert_eq!(result.next_checkpoint, None);
}

#[test]
fn record_versions_are_digests_of_their_compact_form() {
    let spaced = SoqlRun::begin(&acme()).page(br#"{ "records" : [ {"Id" : "1"} ] }"#).ok().unwrap().finish();
    let tight = SoqlRun::begin(&acme()).page(br#"{"records":[{"Id":"1"}]}"#).ok().unwrap().finish();
    assert_eq!(spaced.items[0].content_hash, tight.items[0].content_hash);
    assert_eq!(spaced.items[0].content_hash.len(), 64);
    let other = SoqlRun::begin(&acme()).page(br#"{"records":[{"Id":"2"}]}"#).ok().unwrap().finish();
    assert_ne!(other.items[0].content_hash, tight.items[0].content_hash);
}

#[test]
fn one_refresh_per_run() {
    let mut run = SoqlRun::begin(&acme());
    let url = run.next_url().cloned();
    assert_eq!(run.judge(401), Answer::Refresh);
    assert_eq!(run.next_url().cloned(), url);
    assert_eq!(run.judge(401), Answer::Fail);
    assert_eq!(run.judge(200), Answer::Read);
    assert_eq!(run.judge(204), Answer::Read);
    assert_eq!(run.judge(500), Answer::Fail);
    assert_eq!(
        SoqlRun::failure("500 Internal Server Error", "b"),
        "SOQL query failed (HTTP 500 Internal Server Error): b"
    );
}

#[test]
fn endless_paging_is_refused() {
    let mut run = SoqlRun::begin(&acme());
    for _ in 0..499 {
        run = run.turn(None, Some("/next".to_string())).ok().unwrap();
    }
    let refused = run.turn(None, None).err().unwrap();
    assert_eq!(refused, "paging exceeded 500 pages — narrow the query");
    assert_eq!(
        SoqlRun::begin(&acme()).page(b"[").err().unwrap(),
        "error decoding response body"
    );
}

#[test]
fn an_item_is_what_was_read_off_its_record() {
    let item = make_item("k", None, Some("N".to_string()), None, "h".to_string(), 12);
    assert_eq!(item.id, "row-12");
    assert_eq!(item.meta, "record · N");
    assert_eq!(item.content_hash, "h");
    assert_eq!(item.version, None);
}
