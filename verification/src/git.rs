//! `git-repo`: any git repository as a source.
//!
//! The tree at a ref, swept into hashed evidence. The commit that the ref points
//! at is the version of the snapshot: an unchanged repository costs one
//! `git ls-remote` and no clone.

use vstd::prelude::*;
use crate::digest;
use crate::document;
use crate::document::{
    one_text, read_document, shape_config, take_number, take_text, take_texts, Document,
    DocumentView, Kind, Shape, ShapeView,
};
use crate::patterns;
use crate::patterns::{check_patterns, find_bad, refuse, Matching};
use crate::plugin;
use crate::plugin::{
    describe_source, nothing_new, AuthStatus, AuthStatusView, Describe, DescribeView, FetchResult,
    FetchResultView, FetchStyle, RunSpec,
};
use crate::text;
use crate::text::{
    is_bare_token, is_text, join, leading_word, safe_token, same_text, take_chars, trim,
};
use crate::tree;
use crate::tree::{select, Gathering, GatheringView};

verus! {

/// The source that sweeps a git repository.
pub struct GitRepoPlugin;

/// The configuration of one such source.
#[derive(Debug, PartialEq, Eq)]
pub struct Config {
    /// Git URL or local path of the repository.
    pub url: String,
    /// Branch or tag to read, the remote's default branch by default.
    pub git_ref: String,
    /// Glob patterns over repository-relative paths, everything by default.
    pub patterns: Vec<String>,
    /// The kind of the items, `file` by default.
    pub kind: String,
    /// The size over which a file is left out with a note.
    pub max_file_bytes: u64,
}

#[verifier::ext_equal]
pub struct ConfigView {
    pub url: Seq<char>,
    pub git_ref: Seq<char>,
    pub patterns: Seq<Seq<char>>,
    pub kind: Seq<char>,
    pub max_file_bytes: u64,
}

impl DeepView for Config {
    type V = ConfigView;

    open spec fn deep_view(&self) -> ConfigView {
        ConfigView {
            url: self.url@,
            git_ref: self.git_ref@,
            patterns: self.patterns.deep_view(),
            kind: self.kind@,
            max_file_bytes: self.max_file_bytes,
        }
    }
}

/// The fields of the configuration.
pub open spec fn config_shape() -> ShapeView {
    ShapeView {
        title: "Config"@,
        names: seq!["url"@, "git_ref"@, "patterns"@, "kind"@, "max_file_bytes"@],
        kinds: seq![Kind::Text, Kind::Text, Kind::Texts, Kind::Text, Kind::Number],
        required: 1,
    }
}

/// What a parsed configuration means.
pub open spec fn config_in(parsed: DocumentView) -> Result<ConfigView, Seq<char>> {
    match document::shaped(
        parsed,
        config_shape(),
        "git-repo config shape (url; optional git_ref, patterns, kind, max_file_bytes): "@,
    ) {
        Err(e) => Err(e),
        Ok(slots) => Ok(
            ConfigView {
                url: document::text_or(slots, 0, Seq::empty()),
                git_ref: document::text_or(slots, 1, "HEAD"@),
                patterns: document::texts_or(slots, 2, seq!["**/*"@]),
                kind: document::text_or(slots, 3, "file"@),
                max_file_bytes: document::number_or(slots, 4, 67108864),
            },
        ),
    }
}

/// What a configuration text means.
pub open spec fn config_of(text: Seq<char>) -> Result<ConfigView, Seq<char>> {
    match document::document_of(text) {
        Err(e) => Err("git-repo config: "@ + e),
        Ok(parsed) => config_in(parsed),
    }
}

pub open spec fn config_result(r: Result<Config, String>) -> Result<ConfigView, Seq<char>> {
    match r {
        Ok(c) => Ok(c.deep_view()),
        Err(e) => Err(e@),
    }
}

/// The configuration that a parsed one is.
pub fn config_from(parsed: &Document) -> (r: Result<Config, String>)
    ensures
        config_result(r) == config_in(parsed.deep_view()),
        document::tells_unknown(config_shape(), parsed.deep_view(), document::refusal(r)),
{
    let mut kinds: Vec<Kind> = Vec::new();
    kinds.push(Kind::Text);
    kinds.push(Kind::Text);
    kinds.push(Kind::Texts);
    kinds.push(Kind::Text);
    kinds.push(Kind::Number);
    let shape = Shape {
        title: "Config",
        names: &["url", "git_ref", "patterns", "kind", "max_file_bytes"],
        kinds,
        required: 1,
    };
    assert(shape.names.deep_view() =~= config_shape().names);
    assert(shape.kinds@ =~= config_shape().kinds);
    match shape_config(
        parsed,
        &shape,
        "git-repo config shape (url; optional git_ref, patterns, kind, max_file_bytes): ",
    ) {
        Err(e) => Err(e),
        Ok(slots) => {
            let empty = String::new();
            assert(empty@ =~= Seq::<char>::empty());
            Ok(
                Config {
                    url: take_text(&slots, 0, empty.as_str()),
                    git_ref: take_text(&slots, 1, "HEAD"),
                    patterns: take_texts(&slots, 2, one_text("**/*")),
                    kind: take_text(&slots, 3, "file"),
                    max_file_bytes: take_number(&slots, 4, 67108864),
                },
            )
        },
    }
}

/// Reads a configuration. Unknown keys are errors.
pub fn parse_config(text: &str) -> (r: Result<Config, String>)
    ensures
        config_result(r) == config_of(text@),
        document::tells_unknown_in(config_shape(), text@, document::refusal(r)),
{
    match read_document(text) {
        Err(e) => Err("git-repo config: ".to_string().concat(e.as_str())),
        Ok(parsed) => config_from(&parsed),
    }
}

/// What is wrong with a configuration, if anything, given the first of its patterns
/// that does not compile.
pub open spec fn fault(c: ConfigView, bad: Option<(Seq<char>, Seq<char>)>) -> Option<Seq<char>> {
    if !text::single_token(c.url) {
        Some("url must be a single non-empty token"@)
    } else if !text::single_token(c.git_ref) {
        Some("git_ref must be a bare branch/tag name (or HEAD)"@)
    } else if bad is Some {
        patterns::refusal("pattern"@, bad)
    } else if !text::bare_token(c.kind, false) {
        Some("kind '"@ + c.kind + "' must be a bare token"@)
    } else {
        None
    }
}

/// What is wrong with a configuration, if anything.
pub open spec fn config_error(c: ConfigView) -> Option<Seq<char>> {
    fault(c, patterns::bad_pattern(c.patterns))
}

/// What is wrong with a configuration, given the first of its patterns that does
/// not compile.
pub fn find_fault(c: &Config, bad: &Option<(String, String)>) -> (r: Option<String>)
    ensures
        r.deep_view() == fault(c.deep_view(), bad.deep_view()),
{
    if !safe_token(c.url.as_str()) {
        return Some("url must be a single non-empty token".to_string());
    }
    if !safe_token(c.git_ref.as_str()) {
        return Some("git_ref must be a bare branch/tag name (or HEAD)".to_string());
    }
    if bad.is_some() {
        return refuse("pattern", bad);
    }
    if !is_bare_token(c.kind.as_str(), false) {
        return Some(
            "kind '".to_string().concat(c.kind.as_str()).concat("' must be a bare token"),
        );
    }
    None
}

/// What a failed clone is reported as.
pub fn clone_failure(stderr: &str) -> (r: String)
    ensures
        r@ == "git clone failed: "@ + text::trimmed(stderr@),
{
    "git clone failed: ".to_string().concat(trim(stderr).as_str())
}

/// A commit as it is shown: its first twelve characters.
pub open spec fn short(commit: Seq<char>) -> Seq<char> {
    text::first_chars(commit, 12)
}

/// The commit that `git ls-remote` names first on its output.
pub open spec fn head_of(config: ConfigView, output: Seq<char>) -> Result<Seq<char>, Seq<char>> {
    match text::first_word(text::first_line(output)) {
        Some(oid) => Ok(oid),
        None => Err("ref '"@ + config.git_ref + "' not found in "@ + config.url),
    }
}

/// A snapshot in progress: the files of the tree at one commit.
pub struct Snapshot {
    head: String,
    kind: String,
    cap: u64,
    files: Gathering,
}

#[verifier::ext_equal]
pub struct SnapshotView {
    pub head: Seq<char>,
    pub kind: Seq<char>,
    pub cap: u64,
    pub files: GatheringView,
}

impl View for Snapshot {
    type V = SnapshotView;

    closed spec fn view(&self) -> SnapshotView {
        SnapshotView {
            head: self.head@,
            kind: self.kind@,
            cap: self.cap,
            files: self.files@,
        }
    }
}

impl SnapshotView {
    /// The item that the next file becomes.
    pub open spec fn item(self, bytes: Seq<u8>) -> plugin::ItemView {
        let path = self.files.pending[0];
        digest::file_item_view(path, self.kind, path, bytes, path + " · "@ + short(self.head))
    }

    /// The result of the run.
    pub open spec fn result(self) -> FetchResultView {
        FetchResultView {
            items: self.files.items,
            notes: text::joined(seq!["tree at "@ + short(self.head)] + self.files.notes, "; "@),
            next_checkpoint: Some(self.head),
        }
    }
}

/// A snapshot before its first file.
pub open spec fn opening(config: ConfigView, head: Seq<char>, selected: Seq<Seq<char>>) -> SnapshotView {
    SnapshotView {
        head,
        kind: config.kind,
        cap: config.max_file_bytes,
        files: GatheringView { pending: selected, items: Seq::empty(), notes: Seq::empty() },
    }
}

impl Snapshot {
    /// Begins with the files that were selected, in this order.
    pub fn over(config: &Config, head: &str, selected: Vec<String>) -> (s: Snapshot)
        ensures
            s@ == opening(config.deep_view(), head@, selected.deep_view()),
    {
        let files = Gathering::new(selected, Vec::new(), Vec::new());
        assert(files@.items =~= Seq::empty());
        assert(files@.notes =~= Seq::empty());
        Snapshot {
            head: head.to_string(),
            kind: config.kind.clone(),
            cap: config.max_file_bytes,
            files,
        }
    }

    /// Begins with the paths of all files of the clone.
    pub fn begin(config: &Config, head: &str, paths: Vec<String>) -> (r: Result<Snapshot, String>)
        ensures
            match r {
                Ok(s) => patterns::patterns_error("pattern"@, config.deep_view().patterns) is None
                    && s@ == opening(
                    config.deep_view(),
                    head@,
                    tree::selection(
                        paths.deep_view(),
                        config.deep_view().patterns,
                        patterns::path_aware(),
                    ),
                ),
                Err(e) => patterns::patterns_error("pattern"@, config.deep_view().patterns) == Some(
                    e@,
                ),
            },
    {
        if let Some(e) = check_patterns("pattern", &config.patterns) {
            return Err(e);
        }
        let matching = Matching {
            case_sensitive: false,
            literal_separator: true,
            literal_leading_dot: true,
        };
        Ok(Snapshot::over(config, head, select(paths, &config.patterns, matching)))
    }

    /// The file to be looked at next.
    pub fn next_path(&self) -> (r: Option<&String>)
        ensures
            match r {
                Some(p) => self@.files.pending.len() > 0 && p@ == self@.files.pending[0],
                None => self@.files.pending.len() == 0,
            },
    {
        self.files.next_path()
    }

    /// Whether the next file, of this size, is to be read. Where it is over the
    /// cap it is left out with a note.
    pub fn measure(&mut self, size: u64) -> (r: bool)
        requires
            old(self)@.files.pending.len() > 0,
        ensures
            r == (size <= old(self)@.cap),
            final(self)@ == (SnapshotView {
                files: if r {
                    old(self)@.files
                } else {
                    old(self)@.files.skipping(size as nat, old(self)@.cap as nat)
                },
                ..old(self)@
            }),
    {
        let cap = self.cap;
        self.files.fits(size, cap)
    }

    /// Takes the bytes of the next file.
    pub fn take(&mut self, bytes: &[u8])
        requires
            old(self)@.files.pending.len() > 0,
        ensures
            final(self)@ == (SnapshotView {
                files: old(self)@.files.keeping(old(self)@.item(bytes@)),
                ..old(self)@
            }),
    {
        let path = match self.files.next_path() {
            Some(p) => p.clone(),
            None => {
                return ;
            },
        };
        let shown = take_chars(self.head.as_str(), 12);
        let meta = path.clone().concat(" · ").concat(shown.as_str());
        let kind = self.kind.clone();
        self.files.keep_as(path.as_str(), kind.as_str(), bytes, meta);
    }

    /// The result of the run.
    pub fn finish(self) -> (r: FetchResult)
        ensures
            r.deep_view() == self@.result(),
    {
        let shown = take_chars(self.head.as_str(), 12);
        let (items, files_notes) = self.files.finish();
        let mut notes = files_notes;
        let first = "tree at ".to_string().concat(shown.as_str());
        notes.insert(0, first);
        assert(notes.deep_view() =~= seq![first@] + files_notes.deep_view());
        FetchResult { items, notes: join(&notes, "; "), next_checkpoint: Some(self.head) }
    }
}

/// What an unchanged repository brings.
pub open spec fn unchanged(head: Seq<char>) -> FetchResultView {
    FetchResultView {
        items: Seq::empty(),
        notes: "unchanged at "@ + short(head),
        next_checkpoint: Some(head),
    }
}

/// What a run brings before any clone: everything where the checkpoint is the
/// commit itself, nothing otherwise.
pub open spec fn checked(head: Seq<char>, checkpoint: Option<Seq<char>>) -> Option<
    FetchResultView,
> {
    if checkpoint == Some(head) {
        Some(unchanged(head))
    } else {
        None
    }
}

impl GitRepoPlugin {
    /// How the source presents itself.
    pub fn describe(&self) -> (d: Describe)
        ensures
            d.deep_view() == (DescribeView {
                name: "git-repo"@,
                link_namespace: "repo"@,
                fetch_style: FetchStyle::Snapshot,
                auth_realm: None,
                protocol: plugin::PROTOCOL,
            }),
    {
        describe_source("git-repo", "repo", FetchStyle::Snapshot)
    }

    /// Refuses a configuration that cannot be fetched with.
    pub fn validate_config(&self, config: &str) -> (r: Result<(), String>)
        ensures
            plugin::outcome(r) == (match config_of(config@) {
                Err(e) => Err(e),
                Ok(c) => match config_error(c) {
                    Some(e) => Err(e),
                    None => Ok(()),
                },
            }),
            document::tells_unknown_in(config_shape(), config@, document::refusal(r)),
    {
        match parse_config(config) {
            Err(e) => Err(e),
            Ok(c) => match find_fault(&c, &find_bad(&c.patterns)) {
                Some(e) => Err(e),
                None => Ok(()),
            },
        }
    }

    /// Git carries its own credentials.
    pub fn auth_status(&self) -> (r: AuthStatus)
        ensures
            r.deep_view() == AuthStatusView::NotRequired,
    {
        AuthStatus::NotRequired
    }

    /// The configuration to take a snapshot with, where one is asked for.
    pub fn plan(&self, spec: &RunSpec, config: &str) -> (r: Result<Config, String>)
        ensures
            config_result(r) == if *spec is Snapshot {
                config_of(config@)
            } else {
                Err("git-repo is a snapshot source"@)
            },
    {
        match spec {
            RunSpec::Snapshot => parse_config(config),
            _ => Err("git-repo is a snapshot source".to_string()),
        }
    }

    /// The arguments with which git is asked for the commit of the ref.
    pub fn ls_remote_args(&self, config: &Config) -> (r: Vec<String>)
        ensures
            r.deep_view() == seq!["ls-remote"@, "--"@, config.url@, config.git_ref@],
    {
        let mut r: Vec<String> = Vec::new();
        r.push("ls-remote".to_string());
        r.push("--".to_string());
        r.push(config.url.clone());
        r.push(config.git_ref.clone());
        assert(r.deep_view() =~= seq!["ls-remote"@, "--"@, config.url@, config.git_ref@]);
        r
    }

    /// What a failed question for the commit is reported as.
    pub fn ls_remote_failure(&self, config: &Config, stderr: &str) -> (r: String)
        ensures
            r@ == "git ls-remote failed for "@ + config.url@ + ": "@ + text::trimmed(stderr@),
    {
        "git ls-remote failed for ".to_string().concat(config.url.as_str()).concat(": ").concat(
            trim(stderr).as_str(),
        )
    }

    /// The commit that the ref points at, off the output of `git ls-remote`. It is
    /// the version of the snapshot.
    pub fn resolve_head(&self, config: &Config, output: &str) -> (r: Result<String, String>)
        ensures
            document::result_view(r) == head_of(config.deep_view(), output@),
    {
        match leading_word(output) {
            Some(oid) => Ok(oid),
            None => Err(
                "ref '".to_string().concat(config.git_ref.as_str()).concat(
                    "' not found in ",
                ).concat(config.url.as_str()),
            ),
        }
    }

    /// The whole result where the checkpoint is the commit itself: an unchanged
    /// repository is never cloned.
    pub fn if_unchanged(&self, head: &str, checkpoint: &Option<String>) -> (r: Option<FetchResult>)
        ensures
            r.deep_view() == checked(head@, checkpoint.deep_view()),
    {
        if is_text(checkpoint, head) {
            let notes = "unchanged at ".to_string().concat(take_chars(head, 12).as_str());
            Some(nothing_new(notes, head.to_string()))
        } else {
            None
        }
    }

    /// The arguments with which git clones the repository into `dir`: the newest
    /// commit alone, of the configured ref unless that is the default one.
    pub fn clone_args(&self, config: &Config, dir: &str) -> (r: Vec<String>)
        ensures
            r.deep_view() == if config.git_ref@ == "HEAD"@ {
                seq!["clone"@, "--quiet"@, "--depth"@, "1"@, "--"@, config.url@, dir@]
            } else {
                seq![
                    "clone"@,
                    "--quiet"@,
                    "--depth"@,
                    "1"@,
                    "--branch"@,
                    config.git_ref@,
                    "--"@,
                    config.url@,
                    dir@,
                ]
            },
    {
        let mut r: Vec<String> = Vec::new();
        r.push("clone".to_string());
        r.push("--quiet".to_string());
        r.push("--depth".to_string());
        r.push("1".to_string());
        if !same_text(config.git_ref.as_str(), "HEAD") {
            r.push("--branch".to_string());
            r.push(config.git_ref.clone());
        }
        r.push("--".to_string());
        r.push(config.url.clone());
        r.push(dir.to_string());
        assert(r.deep_view() =~= if config.git_ref@ == "HEAD"@ {
            seq!["clone"@, "--quiet"@, "--depth"@, "1"@, "--"@, config.url@, dir@]
        } else {
            seq![
                "clone"@,
                "--quiet"@,
                "--depth"@,
                "1"@,
                "--branch"@,
                config.git_ref@,
                "--"@,
                config.url@,
                dir@,
            ]
        });
        r
    }

    /// Whether a walk over the clone looks at an entry of this name.
    pub fn walks(&self, name: &str) -> (r: bool)
        ensures
            r == (name@ != ".git"@),
    {
        !same_text(name, ".git")
    }
}

/// A snapshot is taken once per commit. Its checkpoint makes every later run at
/// the same commit bring nothing new and keep the checkpoint, and stops no run at
/// another commit.
pub proof fn law_one_snapshot_per_commit(s: SnapshotView, later: Seq<char>)
    ensures
        checked(s.head, s.result().next_checkpoint) == Some(
            FetchResultView {
                items: Seq::empty(),
                notes: "unchanged at "@ + short(s.head),
                next_checkpoint: s.result().next_checkpoint,
            },
        ),
        later != s.head ==> checked(later, s.result().next_checkpoint) is None,
{
}

/// The item of a file of a snapshot is known by its path and holds that path and the
/// digest of its bytes; it is of the configured kind, and the path and the commit ride
/// along.
pub proof fn law_a_file_of_a_snapshot_is_its_path_and_content(v: SnapshotView, bytes: Seq<u8>)
    ensures
        ({
            let item = v.item(bytes);
            &&& item.id == v.files.pending[0]
            &&& item.files == seq![v.files.pending[0]]
            &&& item.kind == v.kind
            &&& item.content_hash == digest::sha256_text(bytes)
            &&& item.version is None
            &&& item.locator is None
            &&& item.file_hashes == Map::<Seq<char>, Seq<char>>::empty()
            &&& item.meta == v.files.pending[0] + " · "@ + text::first_chars(v.head, 12)
        }),
{
}

/// The result of a snapshot holds all of its items, and its checkpoint is the whole
/// commit; its notes begin with that commit, and every further note stands behind it.
pub proof fn law_a_snapshot_is_marked_by_its_commit(v: SnapshotView)
    ensures
        v.result().items == v.files.items,
        v.result().next_checkpoint == Some(v.head),
        v.result().notes == if v.files.notes.len() == 0 {
            "tree at "@ + text::first_chars(v.head, 12)
        } else {
            "tree at "@ + text::first_chars(v.head, 12) + "; "@ + text::joined(
                v.files.notes,
                "; "@,
            )
        },
{
    let first = "tree at "@ + text::first_chars(v.head, 12);
    text::law_joining_goes_piece_by_piece(seq![first], v.files.notes, first, "; "@);
    if v.files.notes.len() == 0 {
        assert(seq![first] + v.files.notes =~= seq![first]);
    }
}

/// A snapshot begins with its commit, the kind and the cap of its configuration, all
/// selected files to be read, and nothing else.
pub proof fn law_what_a_snapshot_begins_with(
    config: ConfigView,
    head: Seq<char>,
    selected: Seq<Seq<char>>,
)
    ensures
        opening(config, head, selected).head == head,
        opening(config, head, selected).kind == config.kind,
        opening(config, head, selected).cap == config.max_file_bytes,
        opening(config, head, selected).files.pending == selected,
        opening(config, head, selected).files.items.len() == 0,
        opening(config, head, selected).files.notes.len() == 0,
{
}

/// The commit of a ref is the first word of the first line that git prints, whatever
/// follows it; where that line has no word the ref was not found, and the failure names it
/// and the repository.
pub proof fn law_the_commit_is_the_first_word(
    config: ConfigView,
    commit: Seq<char>,
    rest: Seq<char>,
    more: Seq<char>,
)
    requires
        commit.len() > 0,
        forall|i: int| 0 <= i < commit.len() ==> !text::white_space(#[trigger] commit[i]),
        !rest.contains('\n'),
        rest.len() > 0 ==> text::white_space(rest[0]),
    ensures
        head_of(config, commit + rest + seq!['\n'] + more) == Ok::<Seq<char>, Seq<char>>(commit),
        head_of(config, Seq::empty()) matches Err(e) && text::holds(e, config.git_ref)
            && text::ends_with(e, config.url),
{
    let line = commit + rest;
    assert(!line.contains('\n')) by {
        if line.contains('\n') {
            let i = choose|i: int| 0 <= i < line.len() && line[i] == '\n';
            if i < commit.len() {
                assert(commit[i] == '\n');
                assert(text::white_space(commit[i]));
            } else {
                assert(rest[i - commit.len()] == '\n');
            }
        }
    }
    text::law_the_first_line_ends_at_the_first_break(line, more);
    text::law_the_first_word_ends_at_white_space(Seq::empty(), commit, rest);
    assert(Seq::<char>::empty() + commit + rest =~= line);
    text::law_the_first_line_ends_at_the_first_break(Seq::empty(), more);
    let a = "ref '"@;
    let e = a + config.git_ref + "' not found in "@ + config.url;
    assert(e.subrange(a.len() as int, a.len() as int + config.git_ref.len()) =~= config.git_ref);
    assert(e.skip(e.len() - config.url.len()) =~= config.url);
}

/// A configuration is good exactly where its address and its ref are single words that
/// are no options, all of its patterns compile, and its kind is a bare token.
pub proof fn law_which_configurations_are_good(c: ConfigView, bad: Option<(Seq<char>, Seq<char>)>)
    ensures
        fault(c, bad) is None <==> {
            &&& c.url.len() > 0 && c.url[0] != '-' && forall|i: int|
                0 <= i < c.url.len() ==> !text::white_space(#[trigger] c.url[i])
            &&& c.git_ref.len() > 0 && c.git_ref[0] != '-' && forall|i: int|
                0 <= i < c.git_ref.len() ==> !text::white_space(#[trigger] c.git_ref[i])
            &&& bad is None
            &&& c.kind.len() > 0 && forall|i: int|
                0 <= i < c.kind.len() ==> (text::ascii_alphanumeric(#[trigger] c.kind[i])
                    || c.kind[i] == '-')
        },
{
}

/// A configuration says what the entries of its own names say, each field on its own, and
/// has the documented default where an entry is left out; without names the entries go by
/// place.
pub proof fn law_a_configuration_says_what_its_entries_say(
    entries: Seq<(document::ReadingView, document::ReadingView)>,
    list: Seq<document::ReadingView>,
)
    requires
        document::named(entries),
    ensures
        config_in(DocumentView::Table(entries)) matches Ok(c) ==> {
            &&& c.url == match document::given(entries, "url"@) {
                Some(r) => r.text->Ok_0,
                None => Seq::<char>::empty(),
            }
            &&& c.git_ref == match document::given(entries, "git_ref"@) {
                Some(r) => r.text->Ok_0,
                None => "HEAD"@,
            }
            &&& c.patterns == match document::given(entries, "patterns"@) {
                Some(r) => r.texts->Ok_0,
                None => seq!["**/*"@],
            }
            &&& c.kind == match document::given(entries, "kind"@) {
                Some(r) => r.text->Ok_0,
                None => "file"@,
            }
            &&& c.max_file_bytes == match document::given(entries, "max_file_bytes"@) {
                Some(r) => r.number->Ok_0,
                None => 67108864,
            }
        },
        config_in(DocumentView::List(list)) matches Ok(c) ==> {
            &&& c.url == if list.len() > 0 {
                list[0].text->Ok_0
            } else {
                Seq::<char>::empty()
            }
            &&& c.git_ref == if list.len() > 1 {
                list[1].text->Ok_0
            } else {
                "HEAD"@
            }
            &&& c.patterns == if list.len() > 2 {
                list[2].texts->Ok_0
            } else {
                seq!["**/*"@]
            }
            &&& c.kind == if list.len() > 3 {
                list[3].text->Ok_0
            } else {
                "file"@
            }
            &&& c.max_file_bytes == if list.len() > 4 {
                list[4].number->Ok_0
            } else {
                67108864
            }
        },
        config_in(DocumentView::Table(entries)) is Ok ==> document::given(entries, "url"@) is Some,
{
    let shape = config_shape();
    reveal_strlit("url");
    reveal_strlit("git_ref");
    reveal_strlit("patterns");
    reveal_strlit("kind");
    reveal_strlit("max_file_bytes");
    assert(shape.names[0] == "url"@);
    assert(shape.names[1] == "git_ref"@);
    assert(shape.names[2] == "patterns"@);
    assert(shape.names[3] == "kind"@);
    assert(shape.names[4] == "max_file_bytes"@);
    assert(shape.names.len() == 5);
    assert(shape.names[0].len() == 3);
    assert(shape.names[1].len() == 7);
    assert(shape.names[2].len() == 8);
    assert(shape.names[3].len() == 4);
    assert(shape.names[4].len() == 14);
    assert forall|i: int, j: int| 0 <= i < j < 5 implies #[trigger] shape.names[i]
        != #[trigger] shape.names[j] by {
        assert(shape.names[i].len() != shape.names[j].len() || shape.names[i][0] != shape.names[j][0]);
    }
    assert(shape.names.no_duplicates());
    if config_in(DocumentView::Table(entries)) is Ok {
        document::law_a_field_holds_what_its_name_gives(shape, entries, 0);
        document::law_a_field_holds_what_its_name_gives(shape, entries, 1);
        document::law_a_field_holds_what_its_name_gives(shape, entries, 2);
        document::law_a_field_holds_what_its_name_gives(shape, entries, 3);
        document::law_a_field_holds_what_its_name_gives(shape, entries, 4);
    }
    if config_in(DocumentView::List(list)) is Ok {
        document::law_entries_without_names_go_by_place(shape, list, 0);
        document::law_entries_without_names_go_by_place(shape, list, 1);
        document::law_entries_without_names_go_by_place(shape, list, 2);
        document::law_entries_without_names_go_by_place(shape, list, 3);
        document::law_entries_without_names_go_by_place(shape, list, 4);
    }
}

/// What is stated of a configuration is stated of its own fields.
pub proof fn law_a_configuration_is_its_fields(c: Config)
    ensures
        c.deep_view().url == c.url@,
        c.deep_view().git_ref == c.git_ref@,
        c.deep_view().kind == c.kind@,
        c.deep_view().patterns == c.patterns.deep_view(),
        c.deep_view().max_file_bytes == c.max_file_bytes,
{
}

} // verus!
