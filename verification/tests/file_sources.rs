//! The sources that turn files into evidence: `sweep`, `git-repo`, `pack`, `kb`.

use kyyn_plugins::git;
use kyyn_plugins::git::{clone_failure, GitRepoPlugin, Snapshot};
use kyyn_plugins::kb;
use kyyn_plugins::kb::{receipt_meta, record_title, route, storage_regex, Federation, KbPlugin, Route};
use kyyn_plugins::pack;
use kyyn_plugins::pack::{Import, PackPlugin};
use kyyn_plugins::plugin::{AuthStatus, FetchResult, FetchStyle, RunSpec};
use kyyn_plugins::sweep;
use kyyn_plugins::sweep::{expand_home, Sweep, SweepPlugin};
use kyyn_plugins::text::{safe_token, trim};
use kyyn_plugins::tree::in_reading_order;

fn texts(list: &[&str]) -> Vec<String> {
    list.iter().map(|s| s.to_string()).collect()
}

fn paths(files: &[(&str, &[u8])]) -> Vec<String> {
    files.iter().map(|(p, _)| p.to_string()).collect()
}

fn content<'a>(files: &[(&str, &'a [u8])], path: &str) -> &'a [u8] {
    files.iter().find(|(p, _)| *p == path).expect("a file of the tree").1
}

fn run_sweep(config: &str, files: &[(&str, &[u8])]) -> FetchResult {
    let config = SweepPlugin.plan(&RunSpec::Sweep, config).expect("config");
    let mut run = Sweep::begin(&config, paths(files)).expect("patterns");
    while let Some(path) = run.next_path().cloned() {
        let bytes = content(files, &path);
        if run.measure(bytes.len() as u64) {
            run.take(bytes, &format!("/root/{path}"), 7);
        }
    }
    run.finish()
}

fn run_snapshot(config: &str, head: &str, checkpoint: Option<String>, files: &[(&str, &[u8])]) -> FetchResult {
    let plugin = GitRepoPlugin;
    let config = plugin.plan(&RunSpec::Snapshot, config).expect("config");
    if let Some(result) = plugin.if_unchanged(head, &checkpoint) {
        return result;
    }
    let mut run = Snapshot::begin(&config, head, paths(files)).expect("patterns");
    while let Some(path) = run.next_path().cloned() {
        let bytes = content(files, &path);
        if run.measure(bytes.len() as u64) {
            run.take(bytes);
        }
    }
    run.finish()
}

// sweep

#[test]
fn globs_hash_and_preserve_paths() {
    let files: &[(&str, &[u8])] = &[
        ("20260710T1352-manual/transcript.vtt", b"WEBVTT\n"),
        ("20260710T1352-manual/audio.wav", b"RIFF"),
        ("notes.txt", b"hi"),
    ];
    let cfg = r#"(root: "/root", patterns: ["**/*.vtt", "*.txt"], kind: "recording")"#;
    let result = run_sweep(cfg, files);
    let ids: Vec<&str> = result.items.iter().map(|i| i.id.as_str()).collect();
    assert_eq!(ids, vec!["20260710T1352-manual/transcript.vtt", "notes.txt"]);
    let item = &result.items[0];
    assert_eq!(item.kind, "recording");
    assert_eq!(item.content_hash.len(), 64);
    assert!(item.meta.contains("20260710T1352-manual/transcript.vtt"));
    assert!(item.meta.contains("modified"));
    assert_eq!(item.files, vec![item.id.clone()]);
}

#[test]
fn oversized_files_skip_with_a_note_and_config_gates() {
    let big = vec![0u8; 2048];
    let result = run_sweep(r#"(root: "/root", max_file_bytes: 1024)"#, &[("big.bin", big.as_slice())]);
    assert!(result.items.is_empty());
    assert!(result.notes.contains("skipped big.bin"), "{}", result.notes);
    assert_eq!(result.notes, "skipped big.bin (2048 bytes > 1024 cap)");

    assert!(SweepPlugin.validate_config(r#"(root: "/x", patterns: ["[bad"])"#).is_err());
    assert!(SweepPlugin.validate_config(r#"(root: "/x", kind: "no spaces")"#).is_err());
    assert!(SweepPlugin.validate_config(r#"(root: "/x")"#).is_ok());
    // Unknown keys fail by name, never silently ignored.
    let err = SweepPlugin.validate_config(r#"(root: "/x", search: "y")"#).unwrap_err();
    assert!(err.contains("search"), "{err}");
}

#[test]
fn star_stays_within_one_path_level() {
    let files: &[(&str, &[u8])] = &[("top.txt", b"t"), ("sub/nested.txt", b"n")];
    let ids: Vec<String> = run_sweep(r#"(root: "/root", patterns: ["*.txt"])"#, files)
        .items
        .into_iter()
        .map(|i| i.id)
        .collect();
    assert_eq!(ids, vec!["top.txt"], "`*` must not cross a directory level");
}

#[test]
fn changed_content_changes_the_hash_version() {
    let cfg = r#"(root: "/root", patterns: ["*.vtt"])"#;
    let first = run_sweep(cfg, &[("a.vtt", b"one")]).items[0].content_hash.clone();
    let second = run_sweep(cfg, &[("a.vtt", b"two")]).items[0].content_hash.clone();
    assert_ne!(first, second, "an edited file is a NEW version");
}

#[test]
fn sweep_digests_are_sha256() {
    let item = &run_sweep(r#"(root: "/root")"#, &[("a", b"abc")]).items[0];
    assert_eq!(
        item.content_hash,
        "ba7816bf8f01cfea414140de5dae2223b00361a396177a9cb410ff61f20015ad"
    );
    assert_eq!(item.meta, "/root/a · modified 7");
}

#[test]
fn sweep_keeps_what_fits_and_notes_what_does_not() {
    let big = vec![1u8; 20];
    let files: &[(&str, &[u8])] = &[("b", b"ok"), ("a", big.as_slice()), ("c", big.as_slice())];
    let result = run_sweep(r#"(root: "/root", max_file_bytes: 10)"#, files);
    assert_eq!(result.items.len(), 1);
    assert_eq!(result.notes, "skipped a (20 bytes > 10 cap); skipped c (20 bytes > 10 cap)");
    assert_eq!(result.next_checkpoint, None);
}

#[test]
fn dotfiles_match_only_when_asked_for() {
    let files: &[(&str, &[u8])] = &[(".env", b"x"), ("a", b"y")];
    let ids: Vec<String> = run_sweep(r#"(root: "/root")"#, files).items.into_iter().map(|i| i.id).collect();
    assert_eq!(ids, vec!["a"]);
    let ids: Vec<String> =
        run_sweep(r#"(root: "/root", patterns: [".*"])"#, files).items.into_iter().map(|i| i.id).collect();
    assert_eq!(ids, vec![".env"]);
}

#[test]
fn sweep_describes_and_plans() {
    let d = SweepPlugin.describe();
    assert_eq!(d.name, "sweep");
    assert_eq!(d.link_namespace, "file");
    assert_eq!(d.fetch_style, FetchStyle::Sweep);
    assert_eq!(d.protocol, 1);
    assert_eq!(SweepPlugin.auth_status(), AuthStatus::NotRequired);
    assert_eq!(
        SweepPlugin.plan(&RunSpec::Snapshot, "()").unwrap_err(),
        "sweep only sweeps"
    );
    assert_eq!(SweepPlugin.root_failure("/r"), "root /r is not a directory");
    assert_eq!(
        SweepPlugin.validate_config(r#"(root: "/x", kind: "no spaces")"#).unwrap_err(),
        "kind 'no spaces' must be a bare token"
    );
    let err = SweepPlugin.validate_config(r#"(root: "/x", patterns: ["[bad"])"#).unwrap_err();
    assert!(err.starts_with("pattern '[bad': "), "{err}");
}

#[test]
fn home_is_expanded() {
    let home = Some("/home/me".to_string());
    assert_eq!(expand_home("~/notes", &home), Ok("/home/me/notes".to_string()));
    assert_eq!(expand_home("~", &home), Ok("/home/me".to_string()));
    assert_eq!(expand_home("~/", &home), Ok("/home/me/".to_string()));
    assert_eq!(expand_home("~//abs", &home), Ok("/abs".to_string()));
    assert_eq!(expand_home("~x", &home), Ok("~x".to_string()));
    assert_eq!(expand_home("/abs", &None), Ok("/abs".to_string()));
    assert_eq!(expand_home("~/notes", &Some("/h/".to_string())), Ok("/h/notes".to_string()));
    assert_eq!(expand_home("~/notes", &None), Err("$HOME not set".to_string()));
    assert_eq!(expand_home("~", &None), Err("$HOME not set".to_string()));
}

#[test]
fn sweep_config_defaults() {
    let c = sweep::parse_config(r#"(root: "/x")"#).unwrap();
    assert_eq!(c.patterns, texts(&["**/*"]));
    assert_eq!(c.kind, "file");
    assert_eq!(c.max_file_bytes, 64 * 1024 * 1024);
}

#[test]
fn paths_sort_name_by_name() {
    let sorted = in_reading_order(texts(&["a-b", "b", "a/c", "a", "a/b/c"]));
    assert_eq!(sorted, texts(&["a", "a/b/c", "a/c", "a-b", "b"]));
    let mut native: Vec<std::path::PathBuf> =
        ["a-b", "b", "a/c", "a", "a/b/c"].iter().map(std::path::PathBuf::from).collect();
    native.sort();
    let native: Vec<String> = native.iter().map(|p| p.to_string_lossy().to_string()).collect();
    assert_eq!(sorted, native);
}

#[test]
fn white_space_and_control_codes_are_those_of_unicode() {
    let spaces: Vec<u32> = ('\0'..=char::MAX).filter(|c| c.is_whitespace()).map(|c| c as u32).collect();
    let mut expected = vec![0x9, 0xa, 0xb, 0xc, 0xd, 0x20, 0x85, 0xa0, 0x1680];
    expected.extend(0x2000..=0x200a);
    expected.extend([0x2028, 0x2029, 0x202f, 0x205f, 0x3000]);
    assert_eq!(spaces, expected);
    let controls: Vec<u32> = ('\0'..=char::MAX).filter(|c| c.is_control()).map(|c| c as u32).collect();
    let expected: Vec<u32> = (0..0x20).chain(0x7f..=0x9f).collect();
    assert_eq!(controls, expected);
    for c in spaces.into_iter().filter_map(char::from_u32) {
        assert!(!safe_token(&format!("a{c}b")));
        assert_eq!(trim(&format!("{c}a{c}b{c}")), format!("a{c}b"));
    }
    assert!(safe_token("a-b") && !safe_token("-a") && !safe_token(""));
}

// git-repo

#[test]
fn snapshot_dedups_on_head_and_sweeps_globs() {
    let cfg = r#"(url: "/repo", patterns: ["**/*.md"])"#;
    let files: &[(&str, &[u8])] = &[("docs/plan.md", b"# plan\n"), ("notes.txt", b"hello\n")];
    let head = "0123456789abcdef0123456789abcdef01234567".to_string();

    let first = run_snapshot(cfg, &head, None, files);
    assert_eq!(first.items.len(), 1, "{:?}", first.notes);
    assert_eq!(first.items[0].id, "docs/plan.md");
    assert_eq!(first.items[0].content_hash.len(), 64);
    let checkpoint = first.next_checkpoint.clone().expect("checkpoint");
    assert_eq!(checkpoint, head);

    let second = run_snapshot(cfg, &head, Some(checkpoint.clone()), files);
    assert!(second.items.is_empty());
    assert!(second.notes.contains("unchanged"), "{}", second.notes);
    assert_eq!(second.next_checkpoint, Some(head.clone()));

    let more: &[(&str, &[u8])] =
        &[("docs/plan.md", b"# plan\n"), ("docs/more.md", b"more\n"), ("notes.txt", b"hello\n")];
    let third = run_snapshot(cfg, "feed", Some(head), more);
    assert_eq!(third.items.len(), 2, "{:?}", third.notes);
}

#[test]
fn config_gates_are_loud() {
    assert!(GitRepoPlugin.validate_config(r#"(url: "/x")"#).is_ok());
    assert!(GitRepoPlugin.validate_config(r#"(url: "/x", patterns: ["[bad"])"#).is_err());
    assert!(GitRepoPlugin.validate_config(r#"(url: "/x", git_ref: "--upload-pack=evil")"#).is_err());
    assert!(
        GitRepoPlugin.validate_config(r#"(url: "/x", search: "y")"#).is_err(),
        "unknown keys fail by name"
    );
}

#[test]
fn git_refusals_name_their_reason() {
    let refuse = |c: &str| GitRepoPlugin.validate_config(c).unwrap_err();
    assert_eq!(refuse(r#"(url: "a b")"#), "url must be a single non-empty token");
    assert_eq!(refuse(r#"(url: "")"#), "url must be a single non-empty token");
    assert_eq!(
        refuse(r#"(url: "/x", git_ref: "-x")"#),
        "git_ref must be a bare branch/tag name (or HEAD)"
    );
    assert_eq!(refuse(r#"(url: "/x", kind: "")"#), "kind '' must be a bare token");
    assert!(refuse("(").starts_with("git-repo config: "), "{}", refuse("("));
    assert!(
        refuse("()").starts_with(
            "git-repo config shape (url; optional git_ref, patterns, kind, max_file_bytes): "
        ),
        "{}",
        refuse("()")
    );
}

#[test]
fn git_commands_end_their_options_before_the_url() {
    let c = git::parse_config(r#"(url: "https://h/r")"#).unwrap();
    assert_eq!(
        GitRepoPlugin.clone_args(&c, "/tmp/repo"),
        texts(&["clone", "--quiet", "--depth", "1", "--", "https://h/r", "/tmp/repo"])
    );
    assert_eq!(GitRepoPlugin.ls_remote_args(&c), texts(&["ls-remote", "--", "https://h/r", "HEAD"]));
    let c = git::parse_config(r#"(url: "https://h/r", git_ref: "v1")"#).unwrap();
    assert_eq!(
        GitRepoPlugin.clone_args(&c, "/tmp/repo"),
        texts(&["clone", "--quiet", "--depth", "1", "--branch", "v1", "--", "https://h/r", "/tmp/repo"])
    );
    assert!(GitRepoPlugin.walks("src"));
    assert!(!GitRepoPlugin.walks(".git"));
}

#[test]
fn git_head_is_the_first_word() {
    let c = git::parse_config(r#"(url: "/r", git_ref: "v1")"#).unwrap();
    assert_eq!(
        GitRepoPlugin.resolve_head(&c, "abc123\trefs/heads/v1\ndef\trefs/tags/v1\n"),
        Ok("abc123".to_string())
    );
    assert_eq!(
        GitRepoPlugin.resolve_head(&c, ""),
        Err("ref 'v1' not found in /r".to_string())
    );
    assert_eq!(
        GitRepoPlugin.resolve_head(&c, "\nabc"),
        Err("ref 'v1' not found in /r".to_string())
    );
    assert_eq!(
        GitRepoPlugin.ls_remote_failure(&c, " fatal: no\n"),
        "git ls-remote failed for /r: fatal: no"
    );
    assert_eq!(clone_failure("\nfatal: x \n"), "git clone failed: fatal: x");
}

#[test]
fn git_items_carry_the_commit() {
    let result = run_snapshot(r#"(url: "/r")"#, "0123456789abcdef", None, &[("a.md", b"x")]);
    assert_eq!(result.items[0].meta, "a.md · 0123456789ab");
    assert_eq!(result.notes, "tree at 0123456789ab");
    let d = GitRepoPlugin.describe();
    assert_eq!((d.name.as_str(), d.link_namespace.as_str()), ("git-repo", "repo"));
    assert_eq!(d.fetch_style, FetchStyle::Snapshot);
    assert_eq!(
        GitRepoPlugin.plan(&RunSpec::Sweep, "()").unwrap_err(),
        "git-repo is a snapshot source"
    );
}

#[test]
fn positional_configs_are_read_too() {
    let c = git::parse_config(r#"["/r", "v1", ["*.md"], "doc", 5]"#).unwrap();
    assert_eq!(c.url, "/r");
    assert_eq!(c.git_ref, "v1");
    assert_eq!(c.patterns, texts(&["*.md"]));
    assert_eq!(c.kind, "doc");
    assert_eq!(c.max_file_bytes, 5);
    let c = git::parse_config(r#"{"url": "/r", "kind": "doc"}"#).unwrap();
    assert_eq!((c.url.as_str(), c.kind.as_str()), ("/r", "doc"));
}

// pack

fn run_import(
    template: &str,
    rev: &str,
    checkpoint: Option<String>,
    substitutions: Option<usize>,
    files: &[(&str, &[u8])],
) -> Result<FetchResult, String> {
    let text = format!(r#"(template: "{template}", rev: "{rev}", repo: "/templates")"#);
    let config = PackPlugin.plan(&RunSpec::Snapshot, &text)?;
    if let Some(result) = PackPlugin.if_unchanged(&config, &checkpoint) {
        return Ok(result);
    }
    if let Some(e) = PackPlugin.import_fault(&config, substitutions) {
        return Err(e);
    }
    let mut run = Import::begin(&config, paths(files));
    while let Some(path) = run.next_path().cloned() {
        run.take(content(files, &path));
    }
    Ok(run.finish())
}

#[test]
fn pack_imports_rebased_and_dedups_on_rev() {
    let rev = "0123456789abcdef0123456789abcdef01234567".to_string();
    let brain: &[(&str, &[u8])] = &[
        ("kyyn-template.ron", br#"(template: 1, name: "brain", summary: "s")"#),
        ("schema/src/model.rs", b"// kinds\n"),
        ("sources.ron", b"(sources: [])\n"),
    ];

    let first = run_import("brain", &rev, None, Some(0), brain).expect("fetch");
    let ids: Vec<&str> = first.items.iter().map(|i| i.id.as_str()).collect();
    assert_eq!(ids, ["schema/src/model.rs", "sources.ron"], "rebased, manifest excluded");
    assert!(first.items.iter().all(|i| i.content_hash.len() == 64));
    assert_eq!(first.next_checkpoint.as_deref(), Some(rev.as_str()));

    // Same rev in the checkpoint: no clone, no items.
    let second = run_import("brain", &rev, Some(rev.clone()), Some(0), brain).expect("fetch");
    assert!(second.items.is_empty());
    assert!(second.notes.contains("unchanged"), "{}", second.notes);

    // A template that isn't there fails by name.
    let err = run_import("ghost", &rev, None, None, &[]).expect_err("missing template");
    assert!(err.contains("no template 'ghost'"), "{err}");

    // A substitution-bearing starter refuses import.
    let err = run_import("starter", &rev, None, Some(1), &[("a", b"D\n")]).expect_err("starter refused");
    assert!(err.contains("init-time starter"), "{err}");
}

#[test]
fn lib_config_gates_are_loud() {
    let ok = format!(r#"(template: "gbrain", rev: "{}")"#, "a".repeat(40));
    assert!(PackPlugin.validate_config(&ok).is_ok());
    assert!(
        PackPlugin.validate_config(r#"(template: "gbrain", rev: "main")"#).is_err(),
        "ref names are not pins"
    );
    assert!(
        PackPlugin
            .validate_config(&format!(r#"(template: "../up", rev: "{}")"#, "a".repeat(40)))
            .is_err(),
        "template must be a bare token"
    );
    assert!(
        PackPlugin
            .validate_config(&format!(r#"(template: "g", rev: "{}", surprise: true)"#, "a".repeat(40)))
            .is_err(),
        "unknown keys fail by name"
    );
}

#[test]
fn pack_texts() {
    let rev = "a".repeat(40);
    let c = pack::parse_config(&format!(r#"(template: "g_b-1", rev: "{rev}")"#)).unwrap();
    assert_eq!(c.repo, pack::DEFAULT_REPO);
    let steps = PackPlugin.git_steps(&c);
    assert_eq!(steps[0], texts(&["init", "--quiet"]));
    assert_eq!(steps[1], texts(&["remote", "add", "origin", pack::DEFAULT_REPO]));
    assert_eq!(steps[2], texts(&["fetch", "--quiet", "--depth", "1", "origin", rev.as_str()]));
    assert_eq!(steps[3], texts(&["checkout", "--quiet", "--detach", "FETCH_HEAD"]));
    assert_eq!(PackPlugin.git_failure(&steps[0], " no \n"), "git init --quiet failed: no");
    assert_eq!(PackPlugin.git_not_run(&steps[0], "gone"), "running git init --quiet: gone");
    assert_eq!(
        PackPlugin.import_fault(&c, None),
        Some("repo at aaaaaaaaaaaa offers no template 'g_b-1' (no g_b-1/kyyn-template.ron)".to_string())
    );
    assert_eq!(PackPlugin.import_fault(&c, Some(0)), None);
    assert!(!PackPlugin.walks("target") && !PackPlugin.walks(".git") && PackPlugin.walks("src"));
    let short = format!(r#"(template: "g", rev: "{}")"#, "a".repeat(39));
    assert!(PackPlugin.validate_config(&short).unwrap_err().contains("is not a full 40-hex commit OID"));
    let spaced = format!(r#"(template: "g", rev: "{rev}", repo: "a b")"#);
    assert_eq!(
        PackPlugin.validate_config(&spaced).unwrap_err(),
        "repo must be a single non-empty token"
    );
    assert_eq!(
        PackPlugin.validate_config(&format!(r#"(template: "", rev: "{rev}")"#)).unwrap_err(),
        "template '' must be a bare token"
    );
    assert_eq!(PackPlugin.plan(&RunSpec::Sweep, "()").unwrap_err(), "pack is a snapshot source");
    let d = PackPlugin.describe();
    assert_eq!((d.name.as_str(), d.link_namespace.as_str()), ("pack", "pack"));
    let result = run_import("g", &rev, None, Some(0), &[("x/y", b"1")]).unwrap();
    assert_eq!(result.items[0].meta, "g · x/y · aaaaaaaaaaaa");
    assert_eq!(result.items[0].kind, "file");
    assert_eq!(result.notes, "pack 'g' at aaaaaaaaaaaa");
}

// kb

const REGISTRY: &str = r#"(
    schema_hash: "x",
    kinds: [(
        name: "person",
        doc: "",
        storage: "facts/people/{id}.ron",
        fields: [
            (name: "id", doc: "", ty: Str),
            (name: "name", doc: "", ty: Str, role: Some("title")),
        ],
    )],
    roles: [(name: "title", doc: "", binds: Title)],
)"#;

fn run_federation(config: &str, registry: Option<&str>, files: &[(&str, &[u8])]) -> Result<FetchResult, String> {
    let config = KbPlugin.plan(&RunSpec::Sweep, config)?;
    let registry = registry.map(|t| t.to_string());
    let mut run = Federation::begin(&config, "cafe", &registry, paths(files))?;
    while let Some(path) = run.next_path().cloned() {
        run.take(content(files, &path));
    }
    Ok(run.finish())
}

#[test]
fn federates_records_registry_and_receipts() {
    let files: &[(&str, &[u8])] = &[
        ("registry.ron", REGISTRY.as_bytes()),
        (".git/config", b"[core]"),
        ("facts/people/jane-doe.ron", br#"(id: "jane-doe", name: "Jane Doe")"#),
        ("facts/people/bob-ray.ron", br#"(id: "bob-ray", name: "Bob Ray")"#),
        (
            "receipts/abc123.ron",
            br#"(proposal_slug: "import-people", accepted_at: "2026-07-12T10:00:00Z")"#,
        ),
    ];
    let result = run_federation(r#"(url: "/kb")"#, Some(REGISTRY), files).expect("fetch");
    let mut keys: Vec<String> = result.items.iter().map(|i| format!("{}:{}", i.kind, i.id)).collect();
    keys.sort();
    assert_eq!(
        keys,
        vec!["person:bob-ray", "person:jane-doe", "receipt:abc123", "registry:registry"]
    );
    let jane = result.items.iter().find(|i| i.id == "jane-doe").unwrap();
    assert_eq!(jane.meta, "Jane Doe", "title routed through the REMOTE registry");
    assert_eq!(jane.content_hash.len(), 64);
    assert_eq!(jane.files, texts(&["facts/people/jane-doe.ron"]));
    let receipt = result.items.iter().find(|i| i.kind == "receipt").unwrap();
    assert!(receipt.meta.contains("import-people"), "{}", receipt.meta);
    assert_eq!(receipt.meta, "accepted 'import-people' at 2026-07-12T10:00:00Z");
    assert!(result.notes.contains("remote HEAD"));
    assert_eq!(result.notes, "remote HEAD cafe");
}

#[test]
fn config_gates_and_multi_placeholder_storage_routes() {
    assert!(KbPlugin.validate_config(r#"(url: "x y")"#).is_err());
    assert!(KbPlugin.validate_config(r#"(url: "/kb", git_ref: "-rf")"#).is_err());
    assert!(KbPlugin.validate_config(r#"(url: "/kb", include: ["[bad"])"#).is_err());
    assert!(KbPlugin.validate_config(r#"(url: "git@github.com:x/kb.git")"#).is_ok());
    let re = regex_lite::Regex::new(&storage_regex("facts/checkins/{person}/{date}.ron")).unwrap();
    let c = re.captures("facts/checkins/jane-doe/2026-07-06.ron").unwrap();
    assert_eq!(&c[1], "jane-doe");
    assert_eq!(&c[2], "2026-07-06");
}

#[test]
fn storage_patterns_are_anchored_and_escaped() {
    assert_eq!(storage_regex("facts/people/{id}.ron"), r"^facts/people/([^/]+)\.ron$");
    assert_eq!(storage_regex("a.b"), r"^a\.b$");
    assert_eq!(storage_regex("a/{open"), r"^a/([^/]+)$");
    let routes = vec![Route {
        kind: "checkin".to_string(),
        pattern: storage_regex("facts/checkins/{person}/{date}.ron"),
        title: None,
    }];
    assert_eq!(
        route(&routes, "facts/checkins/jane-doe/2026-07-06.ron"),
        Some(("checkin".to_string(), "jane-doe/2026-07-06".to_string(), None))
    );
    assert_eq!(route(&routes, "x/facts/checkins/jane-doe/2026-07-06.ron"), None);
    assert_eq!(route(&routes, "facts/checkins/jane-doe/2026/07.ron"), None);
}

#[test]
fn unrouted_files_sweep_as_plain_files() {
    let files: &[(&str, &[u8])] = &[("facts/odd.txt", b"x"), ("receipts/readme.md", b"no"), ("top", b"y")];
    let result = run_federation(r#"(url: "/kb")"#, None, files).unwrap();
    let keys: Vec<(String, String, String)> =
        result.items.iter().map(|i| (i.kind.clone(), i.id.clone(), i.meta.clone())).collect();
    assert_eq!(
        keys,
        vec![
            ("file".to_string(), "facts/odd.txt".to_string(), String::new()),
            ("receipt".to_string(), "receipts/readme.md".to_string(), String::new()),
        ]
    );
    assert_eq!(
        result.notes,
        "remote HEAD cafe · remote has no readable registry.ron — records swept as plain files"
    );
    let broken = run_federation(r#"(url: "/kb")"#, Some("not a registry"), files).unwrap();
    assert_eq!(broken.items[0].kind, "registry");
    assert_eq!(broken.items[0].meta, "the remote KB's vocabulary · HEAD cafe");
    assert_eq!(broken.items[1].kind, "file");
}

#[test]
fn kb_titles_are_best_effort() {
    assert_eq!(
        record_title(br#"(id: "a", name: "N")"#, "name"),
        Some("N".to_string())
    );
    assert_eq!(record_title(br#"{"name": "N"}"#, "name"), Some("N".to_string()));
    assert_eq!(record_title(br#"(name: 5)"#, "name"), None);
    assert_eq!(record_title(b"[1]", "name"), None);
    assert_eq!(record_title(&[0xff], "name"), None);
    assert_eq!(receipt_meta(b"(x: 1)"), Some("accepted '' at ".to_string()));
    assert_eq!(receipt_meta(b"7"), None);
}

#[test]
fn kb_config_and_commands() {
    let c = kb::parse_config(r#"(url: "u")"#).unwrap();
    assert_eq!(c.git_ref, "main");
    assert_eq!(c.include_paths, texts(&["facts/**", "receipts/**"]));
    assert_eq!(
        KbPlugin.clone_args(&c, "/t"),
        texts(&["clone", "--depth", "1", "--branch", "main", "--", "u", "/t"])
    );
    assert_eq!(KbPlugin.head_of(&Some(" abc\n".to_string())), "abc");
    assert_eq!(KbPlugin.head_of(&None), "");
    assert_eq!(KbPlugin.plan(&RunSpec::Snapshot, "()").unwrap_err(), "kb only sweeps");
    assert_eq!(KbPlugin.describe().name, "kb");
    assert_eq!(
        KbPlugin.validate_config(r#"(url: "x y")"#).unwrap_err(),
        "url must be a single non-empty token"
    );
    assert_eq!(
        KbPlugin.validate_config(r#"(url: "/kb", git_ref: "-rf")"#).unwrap_err(),
        "git_ref must be a bare branch/tag name"
    );
    let err = KbPlugin.validate_config(r#"(url: "/kb", include: ["[bad"])"#).unwrap_err();
    assert!(err.starts_with("include '[bad': "), "{err}");
    let err = run_federation(r#"(url: "/kb", include: ["[bad"])"#, None, &[]).unwrap_err();
    assert!(!err.starts_with("include"), "{err}");
}
