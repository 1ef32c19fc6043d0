//! The Graph client: attempts, pages, downloads, and the SharePoint source.

use kyyn_plugins::graph::client::{
    raw_outcome, require_success, Exchange, Fetched, GraphClient, PageOutcome, Pager, Policy, Reply, Verdict,
};
use kyyn_plugins::graph::folder::{FolderRun, FolderStep, FolderWalk, Found};
use kyyn_plugins::graph::records::{DriveItem, FolderFacet, ParentReference};
use kyyn_plugins::graph::sharepoint;
use kyyn_plugins::graph::sharepoint::{
    compile_patterns, encode_share_url, file_after_download, file_before_download, graph_config,
    parse_version_map, rel_matches, serialize_version_map, Download, FileStep, SharepointFilePlugin, SpConfig,
};
use kyyn_plugins::plugin::{AuthStatus, FetchResult, FetchStyle, RunSpec};
use kyyn_plugins::textmap::TextMap;

const URL: &str = "https://graph.microsoft.com/v1.0/me";

fn text(s: &str) -> String {
    s.to_string()
}

fn answered(status: u16, retry_after: Option<&str>) -> Reply {
    Reply::Answered { status, retry_after: retry_after.map(String::from) }
}

fn retry(v: Verdict) -> (u64, String) {
    match v {
        Verdict::Retry { wait_secs, say } => (wait_secs, say),
        Verdict::Deliver => panic!("delivered"),
        Verdict::GiveUp(e) => panic!("{e}"),
    }
}

#[test]
fn the_token_stays_in_the_graph_origin() {
    assert!(Exchange::begin(URL).is_ok());
    for url in ["https://graph.microsoft.com.evil/", "http://graph.microsoft.com/", "https://x", ""] {
        assert_eq!(
            Exchange::begin(url).err().unwrap(),
            format!("refusing to send the Graph bearer token to a non-Graph origin: {url}")
        );
    }
}

#[test]
fn rate_limits_are_honoured_within_bounds() {
    let wait = |after: Option<&str>| retry(Exchange::begin(URL).ok().unwrap().judge(&answered(429, after), 0)).0;
    assert_eq!(wait(Some("7")), 7);
    assert_eq!(wait(Some("+7")), 7);
    assert_eq!(wait(Some("600")), 60);
    assert_eq!(wait(Some("60")), 60);
    assert_eq!(wait(Some("0")), 0);
    assert_eq!(wait(Some("18446744073709551615")), 60);
    assert_eq!(wait(Some("18446744073709551616")), 5);
    assert_eq!(wait(Some("soon")), 5);
    assert_eq!(wait(Some("")), 5);
    assert_eq!(wait(Some("+")), 5);
    assert_eq!(wait(Some("-1")), 5);
    assert_eq!(wait(Some(" 7")), 5);
    assert_eq!(wait(None), 5);
    let say = retry(Exchange::begin(URL).ok().unwrap().judge(&answered(429, Some("7")), 0)).1;
    assert_eq!(say, "Rate-limited by Graph; waiting 7s (attempt 1/5)");
}

#[test]
fn five_attempts_and_no_more() {
    let mut x = Exchange::begin(URL).ok().unwrap();
    let failed = Reply::Failed(text("e"));
    // Two, four, eight, sixteen seconds, and the spread.
    assert_eq!(
        retry(x.judge(&failed, 3)),
        (2 + 4, text("Graph request failed (e); retrying (attempt 1/5)"))
    );
    assert_eq!(
        retry(x.judge(&answered(503, None), 3)),
        (4, text("Graph returned HTTP 503 — retrying (attempt 2/5)"))
    );
    assert_eq!(retry(x.judge(&failed, 3)).0, 8 + 1);
    assert_eq!(retry(x.judge(&failed, 3)).0, 16 + 2);
    assert!(matches!(x.judge(&answered(503, None), 3), Verdict::Deliver));
    assert!(matches!(x.judge(&answered(429, None), 3), Verdict::Deliver));
    assert!(matches!(x.judge(&failed, 3), Verdict::GiveUp(e) if e == "e"));
    assert_eq!(x.url(), URL);
    let mut y = Exchange::begin(URL).ok().unwrap();
    assert!(matches!(y.judge(&answered(404, None), 3), Verdict::Deliver));
    assert!(matches!(y.judge(&answered(600, None), 3), Verdict::Deliver));
}

#[test]
fn headers_carry_the_token_and_the_preference() {
    let headers = GraphClient::new(text("t")).headers("application/json");
    assert_eq!(
        headers,
        vec![(text("authorization"), text("Bearer t")), (text("accept"), text("application/json"))]
    );
    let headers = GraphClient::new(text("t")).with_text_bodies().headers("a");
    assert_eq!(headers[2], (text("prefer"), text("outlook.body-content-type=\"text\"")));
}

#[test]
fn absence_and_denial_differ() {
    let outcome = |status: u16| raw_outcome(status, vec![1, 2], "u");
    assert!(matches!(outcome(200), Ok(Fetched::Body(b)) if b == vec![1, 2]));
    assert!(matches!(outcome(404), Ok(Fetched::Absent)));
    assert!(matches!(outcome(403), Ok(Fetched::Denied)));
    assert_eq!(outcome(201).err().unwrap(), "Graph GET failed (HTTP 201) for u");
    assert!(require_success(200, "u").is_ok());
    assert_eq!(require_success(201, "u").unwrap_err(), "Graph GET failed (HTTP 201) for u");
    assert_eq!(require_success(206, "u").unwrap_err(), "Graph GET failed (HTTP 206) for u");
    assert_eq!(require_success(301, "u").unwrap_err(), "Graph GET failed (HTTP 301) for u");
    assert_eq!(require_success(404, "u").unwrap_err(), "Graph GET failed (HTTP 404) for u");
}

#[test]
fn a_collection_is_its_pages_in_order() {
    let mut p: Pager<u32> = Pager::begin(Policy::Whole, "u1");
    assert_eq!(p.next_url().unwrap(), "u1");
    p = p.page(vec![1, 2], Some(text("u2"))).ok().unwrap();
    assert_eq!(p.next_url().unwrap(), "u2");
    assert_eq!(p.progress(), None);
    p = p.page(vec![], Some(text("u3"))).ok().unwrap();
    p = p.page(vec![3], None).ok().unwrap();
    assert!(p.next_url().is_none());
    assert_eq!(p.finish(), vec![1, 2, 3]);
}

#[test]
fn long_listings_say_how_far_they_are() {
    let mut p: Pager<u32> = Pager::begin(Policy::Whole, "u");
    for _ in 0..5 {
        p = p.page(vec![1], Some(text("n"))).ok().unwrap();
    }
    assert_eq!(p.progress().as_deref(), Some("5 records (5 pages)…"));
}

fn turned(policy: Policy, pages: u32) -> Pager<u32> {
    let mut p: Pager<u32> = Pager::begin(policy, "u");
    for _ in 0..pages {
        p = p.page(vec![1], Some(text("n"))).ok().unwrap();
    }
    p
}

#[test]
fn no_prefix_passes_for_the_whole() {
    // A listing that is not there is empty; one that is denied or vanishes is no
    // listing.
    let first: Pager<u32> = Pager::begin(Policy::Listing, "u");
    assert!(matches!(first.missing("u", false), Ok(PageOutcome::Absent)));
    assert_eq!(
        first.missing("u", true).err().unwrap(),
        "Graph denied access (HTTP 403) for u — the run cannot be treated as complete"
    );
    assert_eq!(
        turned(Policy::Listing, 1).missing("n", false).err().unwrap(),
        "collection disappeared mid-pagination for n — an accumulated prefix must not advance the window as if complete"
    );
    // The collection of one item may be missing or denied as a whole.
    let first: Pager<u32> = Pager::begin(Policy::PerItem, "u");
    assert!(matches!(first.missing("u", false), Ok(PageOutcome::Absent)));
    assert!(matches!(first.missing("u", true), Ok(PageOutcome::Denied)));
    assert_eq!(
        turned(Policy::PerItem, 1).missing("n", true).err().unwrap(),
        "collection disappeared mid-pagination for n — incomplete, refusing"
    );
}

#[test]
fn endless_collections_are_refused() {
    let over = |policy: Policy| turned(policy, 499).page(vec![], None).err().unwrap();
    assert_eq!(over(Policy::Whole), "paging exceeded 500 pages for u — aborting");
    assert_eq!(over(Policy::PerItem), "paging exceeded 500 pages for u — aborting");
    assert_eq!(
        over(Policy::Listing),
        "paging exceeded 500 pages for u — aborting (likely an unbounded nextLink)"
    );
}

// SharePoint.

#[test]
fn share_token_is_prefixed_urlsafe_and_unpadded() {
    let token = encode_share_url("https://example.sharepoint.com/:x:/r/x.xlsx?a=1");
    assert!(token.starts_with("u!"));
    assert!(!token.contains('+') && !token.contains('/') && !token.contains('='));
    assert_eq!(encode_share_url("a?>"), "u!YT8-");
}

#[test]
fn share_tokens_tell_links_apart() {
    // One, two and three bytes behind a whole group, and every digit.
    assert_eq!(encode_share_url(""), "u!");
    assert_eq!(encode_share_url("a"), "u!YQ");
    assert_eq!(encode_share_url("ab"), "u!YWI");
    assert_eq!(encode_share_url("abc"), "u!YWJj");
    assert_eq!(encode_share_url("abcd"), "u!YWJjZA");
    assert_eq!(encode_share_url("\u{7ff}\u{7bf}?"), "u!37_evz8");
    let links = ["", "a", "b", "ab", "ba", "a\u{0}", "https://x/1", "https://x/2"];
    for a in links {
        for b in links {
            assert_eq!(encode_share_url(a) == encode_share_url(b), a == b);
        }
    }
}

#[test]
fn config_defaults_mirror_sweep_and_validation_gates() {
    let minimal = r#"(url: "https://x", client_id: "c", tenant: "t")"#;
    let sp = sharepoint::parse_config(minimal).ok().unwrap();
    assert_eq!(sp.patterns, vec!["**/*"]);
    assert_eq!(sp.kind, "file");
    assert_eq!(sp.max_file_bytes, 64 * 1024 * 1024);
    assert!(SharepointFilePlugin.validate_config(minimal).is_ok());
    assert!(
        SharepointFilePlugin
            .validate_config(r#"(url: "u", client_id: "c", tenant: "t", patterns: ["[bad"])"#)
            .is_err()
    );
    assert!(
        SharepointFilePlugin
            .validate_config(r#"(url: "u", client_id: "c", tenant: "t", kind: "no spaces")"#)
            .is_err()
    );
    // Unknown keys fail by name, never silently ignored.
    let err = SharepointFilePlugin
        .validate_config(r#"(url: "u", client_id: "c", tenant: "t", search: "BEE")"#)
        .unwrap_err();
    assert!(err.contains("search"), "{err}");
}

#[test]
fn patterns_are_path_aware() {
    let compiled = |p: &str| {
        let list = vec![text(p)];
        compile_patterns(&list).unwrap();
        list
    };
    let single = compiled("*.xlsx");
    assert!(rel_matches(&single, "Tracker.xlsx"));
    assert!(
        !rel_matches(&single, "Closed Trackers/Old.xlsx"),
        "`*` must not cross a folder level"
    );
    let deep = compiled("**/*.xlsx");
    assert!(rel_matches(&deep, "Closed Trackers/Old.xlsx"));
    assert!(rel_matches(&deep, "Tracker.xlsx"));
    let scoped = compiled("Product Trackers/*.xlsx");
    assert!(rel_matches(&scoped, "Product Trackers/A.xlsx"));
    assert!(!rel_matches(&scoped, "Product Trackers/sub/A.xlsx"));
    assert!(
        !rel_matches(&deep, ".hidden/x.xlsx"),
        "explicit dotfiles only"
    );
    assert!(compile_patterns(&vec![text("ok"), text("[bad")]).unwrap_err().starts_with("pattern '[bad': "));
}

#[test]
fn folder_checkpoint_round_trips_and_a_file_checkpoint_is_not_a_map() {
    let mut m = TextMap::new();
    m.insert("01ABCDEF".to_string(), "\"{ETAG},2\"".to_string());
    m.insert("01GHIJKL".to_string(), "deadbeef".to_string());
    let text = serialize_version_map(&m).unwrap();
    assert_eq!(parse_version_map(&text).unwrap().pairs(), m.pairs());
    // A file target's checkpoint is a bare version string — never a map,
    // so a target that changed shape triggers one clean full refetch.
    assert!(parse_version_map(r#""{3299524D-2E89},2""#).is_none());
    assert!(parse_version_map("").is_none());
}

#[test]
fn text_maps_keep_one_value_per_key_in_order() {
    let mut m = TextMap::new();
    for (k, v) in [("b", "1"), ("a", "2"), ("b", "3"), ("c", "4")] {
        m.insert(text(k), text(v));
    }
    let pairs: Vec<(&str, &str)> = m.pairs().iter().map(|(k, v)| (k.as_str(), v.as_str())).collect();
    assert_eq!(pairs, vec![("a", "2"), ("b", "3"), ("c", "4")]);
    assert_eq!(m.get("b").map(String::as_str), Some("3"));
    assert!(m.get("d").is_none());
}

fn sp() -> SpConfig {
    sharepoint::parse_config(r#"(url: "https://s", max_file_bytes: 10)"#).ok().unwrap()
}

fn file(name: &str) -> DriveItem {
    DriveItem {
        id: Some(text("id")),
        name: text(name),
        download_url: Some(text("dl")),
        etag: Some(text("v1")),
        last_modified: Some(text("lm")),
        size: Some(4),
        folder: None,
        parent_reference: None,
    }
}

fn done(step: FileStep) -> FetchResult {
    match step {
        FileStep::Done(r) => r,
        FileStep::Download(u) => panic!("download {u}"),
        FileStep::Failed(e) => panic!("{e}"),
    }
}

#[test]
fn a_file_is_published_once_per_version() {
    let item = file("a/b.txt");
    assert!(matches!(file_before_download(&sp(), &item, &None), FileStep::Download(u) if u == "dl"));
    let (result, name) = file_after_download(&sp(), &item, &None, b"abc");
    assert_eq!(name.as_deref(), Some("b.txt"));
    assert_eq!(result.next_checkpoint.as_deref(), Some("v1"));
    assert_eq!(result.items[0].id, "https://s");
    assert_eq!(result.items[0].version.as_deref(), Some("v1"));
    assert_eq!(result.items[0].meta, "b.txt · 3 bytes · modified lm");
    assert_eq!(result.notes, "'b.txt' new version snapshotted");
    let again = done(file_before_download(&sp(), &item, &result.next_checkpoint));
    assert!(again.items.is_empty());
    assert_eq!(again.notes, "'a/b.txt' unchanged (version v1)");
    assert_eq!(again.next_checkpoint.as_deref(), Some("v1"));
}

#[test]
fn a_file_without_versions_goes_by_its_content() {
    let mut item = file("b");
    item.etag = None;
    item.last_modified = None;
    let (first, _) = file_after_download(&sp(), &item, &None, b"abc");
    let sha = "ba7816bf8f01cfea414140de5dae2223b00361a396177a9cb410ff61f20015ad";
    assert_eq!(first.next_checkpoint.as_deref(), Some(sha));
    assert_eq!(first.items[0].version, None);
    assert_eq!(first.items[0].meta, "b · 3 bytes · modified ?");
    let (second, name) = file_after_download(&sp(), &item, &first.next_checkpoint, b"abc");
    assert!(second.items.is_empty() && name.is_none());
    assert_eq!(second.notes, "'b' unchanged (content hash match)");
    let (third, _) = file_after_download(&sp(), &item, &first.next_checkpoint, b"abd");
    assert_eq!(third.items.len(), 1);
    // The time of the last change is a version where there is no other.
    item.last_modified = Some(text("lm"));
    let kept = done(file_before_download(&sp(), &item, &Some(text("lm"))));
    assert!(kept.items.is_empty());
}

#[test]
fn files_are_kept_under_their_last_name() {
    for name in ["b", "a/b", "a/b/", "a//b", "a/b/.", "a/..", "..", ".", "/", "", "./x", "../y", "a/./b", "a\\b", ".h"] {
        let expected = std::path::Path::new(name).file_name().and_then(|s| s.to_str()).unwrap_or(name);
        let (_, kept) = file_after_download(&sp(), &file(name), &None, b"abc");
        assert_eq!(kept.as_deref(), Some(expected), "{name}");
    }
}

#[test]
fn large_files_are_skipped_with_a_note() {
    let mut item = file("b");
    item.size = Some(11);
    let r = done(file_before_download(&sp(), &item, &Some(text("old"))));
    assert_eq!(r.notes, "skipped 'b' (11 bytes > 10 cap)");
    assert_eq!(r.next_checkpoint.as_deref(), Some("old"));
    item.size = None;
    item.download_url = None;
    assert!(
        matches!(file_before_download(&sp(), &item, &None), FileStep::Failed(e) if e == "no download URL on 'b'")
    );
}

#[test]
fn downloads_stop_at_the_cap() {
    let d = Download::begin("f", 4).chunk(b"ab").ok().unwrap().chunk(b"cd").ok().unwrap();
    assert_eq!(
        d.chunk(b"e").err().unwrap(),
        "'f' exceeds the 4-byte cap mid-download — refusing to buffer"
    );
    assert_eq!(Download::begin("f", 4).chunk(b"abcd").ok().unwrap().finish(), b"abcd".to_vec());
    assert_eq!(
        Download::refusal("f", "404 Not Found"),
        "download failed (HTTP 404 Not Found) for 'f'"
    );
}

fn folder(name: &str, id: Option<&str>) -> DriveItem {
    DriveItem {
        id: id.map(String::from),
        name: text(name),
        download_url: None,
        etag: None,
        last_modified: None,
        size: None,
        folder: Some(FolderFacet { child_count: None }),
        parent_reference: Some(ParentReference { drive_id: Some(text("drive")) }),
    }
}

fn child(id: &str, name: &str, etag: Option<&str>) -> DriveItem {
    let mut f = file(name);
    f.id = Some(text(id));
    f.etag = etag.map(String::from);
    f
}

fn walk(config: &SpConfig) -> Vec<Found> {
    let mut walk = FolderWalk::begin(config, &folder("root", Some("r"))).ok().unwrap();
    let mut asked = Vec::new();
    while let Some(url) = walk.next_folder() {
        let children = if url.contains("/items/r/") {
            vec![child("1", "z.txt", Some("v1")), folder("sub", Some("s")), child("2", "a.txt", None)]
        } else {
            vec![child("3", "m.txt", Some("v3"))]
        };
        asked.push(url);
        walk = walk.children(children).ok().unwrap();
    }
    assert_eq!(
        asked,
        vec![
            text("https://graph.microsoft.com/v1.0/drives/drive/items/r/children"),
            text("https://graph.microsoft.com/v1.0/drives/drive/items/s/children"),
        ]
    );
    walk.finish()
}

#[test]
fn folders_are_walked_and_sorted_by_path() {
    let rels: Vec<String> = walk(&sp()).into_iter().map(|f| f.rel).collect();
    assert_eq!(rels, vec!["a.txt", "sub/m.txt", "z.txt"]);
    assert_eq!(
        FolderWalk::begin(&sp(), &folder("root", None)).err().unwrap(),
        "folder share carries no item id — cannot list children"
    );
    let mut root = folder("root", Some("r"));
    root.parent_reference = None;
    assert_eq!(
        FolderWalk::begin(&sp(), &root).err().unwrap(),
        "folder share carries no driveId — cannot list children"
    );
    let mut walk = FolderWalk::begin(&sp(), &folder("root", Some("r"))).ok().unwrap();
    walk.next_folder();
    assert_eq!(
        walk.children(vec![folder("sub", None)]).err().unwrap(),
        "folder 'sub' has no Graph id"
    );
}

fn run(config: &SpConfig, checkpoint: Option<String>) -> (FetchResult, Vec<String>) {
    let mut run = FolderRun::begin(config, &checkpoint, walk(config));
    let mut written = Vec::new();
    loop {
        match run.advance() {
            FolderStep::Download { url, label } => {
                assert_eq!(url, "dl");
                if let Some(rel) = run.received(label.as_bytes()) {
                    written.push(rel);
                }
            }
            FolderStep::Failed(e) => panic!("{e}"),
            FolderStep::Done => return (run.finish().ok().unwrap(), written),
        }
    }
}

#[test]
fn a_folder_is_published_once() {
    let (first, written) = run(&sp(), None);
    assert_eq!(written, vec!["a.txt", "sub/m.txt", "z.txt"]);
    assert_eq!(first.notes, "3 new/changed, 0 unchanged");
    assert_eq!(first.items[1].id, "3");
    assert_eq!(first.items[1].meta, "sub/m.txt · 9 bytes · modified lm");
    let (second, written) = run(&sp(), first.next_checkpoint.clone());
    assert!(second.items.is_empty() && written.is_empty());
    assert_eq!(second.notes, "0 new/changed, 3 unchanged");
    assert_eq!(second.next_checkpoint, first.next_checkpoint);
    let (third, _) = run(&sp(), Some(text("\"v1\"")));
    assert_eq!(
        third.notes,
        "3 new/changed, 0 unchanged; checkpoint is not a version map (target changed file → folder?) — full refetch"
    );
}

#[test]
fn patterns_and_caps_select_in_a_folder() {
    let config = sharepoint::parse_config(r#"(url: "s", patterns: ["*.txt"], max_file_bytes: 3)"#).ok().unwrap();
    let (r, written) = run(&config, None);
    assert!(written.is_empty());
    assert_eq!(
        r.notes,
        "0 new/changed, 0 unchanged; skipped a.txt (4 bytes > 3 cap); skipped z.txt (4 bytes > 3 cap)"
    );
    assert_eq!(parse_version_map(&r.next_checkpoint.unwrap()).unwrap().pairs().len(), 0);
}

#[test]
fn folder_files_need_an_identity_and_an_address() {
    let step = |f: DriveItem| FolderRun::begin(&sp(), &None, vec![Found { item: f, rel: text("f") }]).advance();
    let mut nameless = file("f");
    nameless.id = None;
    assert!(matches!(step(nameless), FolderStep::Failed(e) if e == "file 'f' has no Graph id"));
    let mut unreachable_file = file("f");
    unreachable_file.download_url = None;
    assert!(matches!(step(unreachable_file), FolderStep::Failed(e) if e == "no download URL on 'f'"));
}

#[test]
fn the_sharepoint_plugin_presents_itself() {
    let d = SharepointFilePlugin.describe();
    assert_eq!((d.name.as_str(), d.link_namespace.as_str()), ("sharepoint-file", "sharepoint"));
    assert_eq!(d.fetch_style, FetchStyle::Snapshot);
    assert_eq!(d.auth_realm.as_deref(), Some("ms-graph"));
    assert_eq!(
        SharepointFilePlugin.config_auth_realm(r#"(url: "u", client_id: "c", tenant: "t")"#),
        Ok(text("ms-graph:t:c"))
    );
    assert_eq!(
        SharepointFilePlugin.auth_status(false),
        AuthStatus::NotAuthenticated(text("no token — run `kindred source auth <name>`"))
    );
    assert_eq!(
        SharepointFilePlugin.plan(&RunSpec::Sweep, "()").err().as_deref(),
        Some("sharepoint-file is a snapshot source")
    );
    assert_eq!(
        SharepointFilePlugin.share_failure(false),
        "share link not found (Graph 404) — the document may have been moved or deleted"
    );
    assert_eq!(
        SharepointFilePlugin.share_failure(true),
        "share link access DENIED (Graph 403) — confirm you can open it and that Files.Read.All / Sites.Read.All are granted; this run is not complete"
    );
    let cfg = graph_config(&sp());
    assert_eq!(cfg.tenant, "organizations");
    assert!(cfg.owner_addresses.is_empty() && cfg.mail_filter.is_none());
}
