//! `pack`: a knowledge base template at a pinned commit as a source.
//!
//! The tree of the template arrives as one item per file, under the paths that
//! the files would have in the importing knowledge base. The pinned commit is the
//! version of the snapshot: a pack is fetched again only once its pin moves.

use vstd::prelude::*;
use crate::digest;
use crate::document;
use crate::document::{
    read_document, shape_config, take_text, Document, DocumentView, Kind, Shape, ShapeView,
};
use crate::lists::filtered;
use crate::plugin;
use crate::plugin::{
    describe_source, nothing_new, AuthStatus, AuthStatusView, Describe, DescribeView, FetchResult,
    FetchResultView, FetchStyle, RunSpec,
};
use crate::text;
use crate::text::{chars_of, is_bare_token, is_text, join, safe_token, same_text, take_chars, trim};
use crate::tree;
use crate::tree::{in_reading_order, Gathering, GatheringView};

verus! {

/// The first-party templates repository, which anyone can clone.
pub const DEFAULT_REPO: &'static str = "https://github.com/drshade/kyyn-templates";

/// The source that imports a template.
pub struct PackPlugin;

/// The configuration of one such source.
#[derive(Debug, PartialEq, Eq)]
pub struct Config {
    /// The template directory to import.
    pub template: String,
    /// The full commit identifier of the templates repository.
    pub rev: String,
    /// The templates repository.
    pub repo: String,
}

#[verifier::ext_equal]
pub struct ConfigView {
    pub template: Seq<char>,
    pub rev: Seq<char>,
    pub repo: Seq<char>,
}

impl DeepView for Config {
    type V = ConfigView;

    open spec fn deep_view(&self) -> ConfigView {
        ConfigView { template: self.template@, rev: self.rev@, repo: self.repo@ }
    }
}

/// The fields of the configuration.
pub open spec fn config_shape() -> ShapeView {
    ShapeView {
        title: "Config"@,
        names: seq!["template"@, "rev"@, "repo"@],
        kinds: seq![Kind::Text, Kind::Text, Kind::Text],
        required: 2,
    }
}

/// What a parsed configuration means.
pub open spec fn config_in(parsed: DocumentView) -> Result<ConfigView, Seq<char>> {
    match document::shaped(
        parsed,
        config_shape(),
        "pack config shape (template, rev; optional repo): "@,
    ) {
        Err(e) => Err(e),
        Ok(slots) => Ok(
            ConfigView {
                template: document::text_or(slots, 0, Seq::empty()),
                rev: document::text_or(slots, 1, Seq::empty()),
                repo: document::text_or(slots, 2, DEFAULT_REPO@),
            },
        ),
    }
}

/// What a configuration text means.
pub open spec fn config_of(text: Seq<char>) -> Result<ConfigView, Seq<char>> {
    match document::document_of(text) {
        Err(e) => Err("pack config: "@ + e),
        Ok(parsed) => config_in(parsed),
    }
}

pub open spec fn config_result(r: Result<Config, String>) -> Result<ConfigView, Seq<char>> {
    match r {
        Ok(c) => Ok(c.deep_view()),
        Err(e) => Err(e@),
    }
}

/// The configuration that a parsed one is.
pub fn config_from(parsed: &Document) -> (r: Result<Config, String>)
    ensures
        config_result(r) == config_in(parsed.deep_view()),
        document::tells_unknown(config_shape(), parsed.deep_view(), document::refusal(r)),
{
    let mut kinds: Vec<Kind> = Vec::new();
    kinds.push(Kind::Text);
    kinds.push(Kind::Text);
    kinds.push(Kind::Text);
    let shape = Shape { title: "Config", names: &["template", "rev", "repo"], kinds, required: 2 };
    assert(shape.names.deep_view() =~= config_shape().names);
    assert(shape.kinds@ =~= config_shape().kinds);
    match shape_config(
        parsed,
        &shape,
        "pack config shape (template, rev; optional repo): ",
    ) {
        Err(e) => Err(e),
        Ok(slots) => {
            let empty = String::new();
            assert(empty@ =~= Seq::<char>::empty());
            Ok(
                Config {
                    template: take_text(&slots, 0, empty.as_str()),
                    rev: take_text(&slots, 1, empty.as_str()),
                    repo: take_text(&slots, 2, DEFAULT_REPO),
                },
            )
        },
    }
}

/// Reads a configuration. Unknown keys are errors.
pub fn parse_config(text: &str) -> (r: Result<Config, String>)
    ensures
        config_result(r) == config_of(text@),
        document::tells_unknown_in(config_shape(), text@, document::refusal(r)),
{
    match read_document(text) {
        Err(e) => Err("pack config: ".to_string().concat(e.as_str())),
        Ok(parsed) => config_from(&parsed),
    }
}

/// A hexadecimal digit, in either case.
pub open spec fn hex_digit(c: char) -> bool {
    ('0' <= c && c <= '9') || ('a' <= c && c <= 'f') || ('A' <= c && c <= 'F')
}

/// A full commit identifier: forty hexadecimal digits. Names that can move are
/// none.
pub open spec fn full_commit(s: Seq<char>) -> bool {
    s.len() == 40 && forall|i: int| 0 <= i < s.len() ==> hex_digit(#[trigger] s[i])
}

fn is_full_commit(s: &str) -> (r: bool)
    ensures
        r == full_commit(s@),
{
    let v = chars_of(s);
    if v.len() != 40 {
        return false;
    }
    let mut i: usize = 0;
    while i < v.len()
        invariant
            i <= v.len(),
            v@ == s@,
            forall|j: int| 0 <= j < i ==> hex_digit(#[trigger] s@[j]),
        decreases v.len() - i,
    {
        let c = v[i];
        if !(('0' <= c && c <= '9') || ('a' <= c && c <= 'f') || ('A' <= c && c <= 'F')) {
            assert(!hex_digit(s@[i as int]));
            return false;
        }
        i += 1;
    }
    true
}

/// What is wrong with a configuration, if anything.
pub open spec fn config_error(c: ConfigView) -> Option<Seq<char>> {
    if !text::bare_token(c.template, true) {
        Some("template '"@ + c.template + "' must be a bare token"@)
    } else if !full_commit(c.rev) {
        Some(
            "rev '"@ + c.rev
                + "' is not a full 40-hex commit OID — movable ref names are not pins"@,
        )
    } else if !text::single_token(c.repo) {
        Some("repo must be a single non-empty token"@)
    } else {
        None
    }
}

pub fn find_fault(c: &Config) -> (r: Option<String>)
    ensures
        r.deep_view() == config_error(c.deep_view()),
{
    if !is_bare_token(c.template.as_str(), true) {
        return Some(
            "template '".to_string().concat(c.template.as_str()).concat("' must be a bare token"),
        );
    }
    if !is_full_commit(c.rev.as_str()) {
        return Some(
            "rev '".to_string().concat(c.rev.as_str()).concat(
                "' is not a full 40-hex commit OID — movable ref names are not pins",
            ),
        );
    }
    if !safe_token(c.repo.as_str()) {
        return Some("repo must be a single non-empty token".to_string());
    }
    None
}

/// A commit as it is shown: its first twelve characters.
pub open spec fn short(commit: Seq<char>) -> Seq<char> {
    text::first_chars(commit, 12)
}

/// The files of a template that are imported, in order: all but its manifest,
/// which describes the template and not the knowledge base.
pub open spec fn imported(paths: Seq<Seq<char>>) -> Seq<Seq<char>> {
    tree::reading_order(paths).filter(|p: Seq<char>| p != "kyyn-template.ron"@)
}

fn select_imported(paths: Vec<String>) -> (r: Vec<String>)
    ensures
        r.deep_view() == imported(paths.deep_view()),
{
    let ghost kept = |p: Seq<char>| p != "kyyn-template.ron"@;
    let keep = |p: &String| -> (b: bool)
        ensures
            b == kept(p@),
        { !same_text(p.as_str(), "kyyn-template.ron") };
    filtered(in_reading_order(paths), keep, Ghost(kept))
}

/// An import in progress.
pub struct Import {
    template: String,
    rev: String,
    files: Gathering,
}

#[verifier::ext_equal]
pub struct ImportView {
    pub template: Seq<char>,
    pub rev: Seq<char>,
    pub files: GatheringView,
}

impl View for Import {
    type V = ImportView;

    closed spec fn view(&self) -> ImportView {
        ImportView { template: self.template@, rev: self.rev@, files: self.files@ }
    }
}

impl ImportView {
    /// The item that the next file becomes.
    pub open spec fn item(self, bytes: Seq<u8>) -> plugin::ItemView {
        let path = self.files.pending[0];
        digest::file_item_view(
            path,
            "file"@,
            path,
            bytes,
            self.template + " · "@ + path + " · "@ + short(self.rev),
        )
    }

    /// The result of the run.
    pub open spec fn result(self) -> FetchResultView {
        FetchResultView {
            items: self.files.items,
            notes: "pack '"@ + self.template + "' at "@ + short(self.rev),
            next_checkpoint: Some(self.rev),
        }
    }
}

impl Import {
    /// Begins with the paths of all files of the template, relative to its
    /// directory.
    pub fn begin(config: &Config, paths: Vec<String>) -> (r: Import)
        ensures
            r@ == (ImportView {
                template: config.template@,
                rev: config.rev@,
                files: GatheringView {
                    pending: imported(paths.deep_view()),
                    items: Seq::empty(),
                    notes: Seq::empty(),
                },
            }),
    {
        let files = Gathering::new(select_imported(paths), Vec::new(), Vec::new());
        assert(files@.items =~= Seq::empty());
        assert(files@.notes =~= Seq::empty());
        Import { template: config.template.clone(), rev: config.rev.clone(), files }
    }

    /// The file to be read next.
    pub fn next_path(&self) -> (r: Option<&String>)
        ensures
            match r {
                Some(p) => self@.files.pending.len() > 0 && p@ == self@.files.pending[0],
                None => self@.files.pending.len() == 0,
            },
    {
        self.files.next_path()
    }

    /// Takes the bytes of the next file.
    pub fn take(&mut self, bytes: &[u8])
        requires
            old(self)@.files.pending.len() > 0,
        ensures
            final(self)@ == (ImportView {
                files: old(self)@.files.keeping(old(self)@.item(bytes@)),
                ..old(self)@
            }),
    {
        let path = match self.files.next_path() {
            Some(p) => p.clone(),
            None => {
                return ;
            },
        };
        let shown = take_chars(self.rev.as_str(), 12);
        let meta = self.template.clone().concat(" · ").concat(path.as_str()).concat(
            " · ",
        ).concat(shown.as_str());
        self.files.keep_as(path.as_str(), "file", bytes, meta);
    }

    /// The result of the run.
    pub fn finish(self) -> (r: FetchResult)
        ensures
            r.deep_view() == self@.result(),
    {
        let shown = take_chars(self.rev.as_str(), 12);
        let notes = "pack '".to_string().concat(self.template.as_str()).concat("' at ").concat(
            shown.as_str(),
        );
        let (items, _) = self.files.finish();
        FetchResult { items, notes, next_checkpoint: Some(self.rev) }
    }
}

/// What a run brings before anything is fetched: everything where the
/// checkpoint is the pin itself, nothing otherwise.
pub open spec fn checked(config: ConfigView, checkpoint: Option<Seq<char>>) -> Option<
    FetchResultView,
> {
    if checkpoint == Some(config.rev) {
        Some(
            FetchResultView {
                items: Seq::empty(),
                notes: "pack '"@ + config.template + "' unchanged at "@ + short(config.rev),
                next_checkpoint: Some(config.rev),
            },
        )
    } else {
        None
    }
}

/// An import makes every later run under the same pin bring nothing new and
/// keep the checkpoint, and stops no run under another pin.
pub proof fn law_one_import_per_pin(i: ImportView, config: ConfigView)
    ensures
        checked(config, i.result().next_checkpoint) is Some <==> config.rev == i.rev,
        checked(config, i.result().next_checkpoint) matches Some(r) ==> r.items.len() == 0
            && r.next_checkpoint == i.result().next_checkpoint,
{
}

/// The manifest of a template is never imported, everything else of it is.
pub proof fn law_import_leaves_out_the_manifest_alone(paths: Seq<Seq<char>>, path: Seq<char>)
    ensures
        imported(paths).contains(path) <==> (paths.contains(path) && path
            != "kyyn-template.ron"@),
{
    broadcast use vstd::seq_lib::group_to_multiset_ensures;

    let keep = |p: Seq<char>| p != "kyyn-template.ron"@;
    let ordered = tree::reading_order(paths);
    let chosen = ordered.filter(keep);
    crate::sorting::lemma_sorted::<tree::TreePath>(paths);
    assert(ordered.contains(path) <==> paths.contains(path)) by {
        assert(ordered.contains(path) <==> ordered.to_multiset().count(path) > 0);
        assert(paths.contains(path) <==> paths.to_multiset().count(path) > 0);
    }
    if chosen.contains(path) {
        let i = choose|i: int| 0 <= i < chosen.len() && chosen[i] == path;
        ordered.lemma_filter_pred(keep, i);
        tree::lemma_filter_contained(ordered, keep, i);
    }
    if ordered.contains(path) && keep(path) {
        let i = choose|i: int| 0 <= i < ordered.len() && ordered[i] == path;
        ordered.lemma_filter_contains(keep, i);
    }
}

/// The commands with which git fetches the pinned commit alone into an empty
/// directory, in order.
pub open spec fn git_steps_of(config: ConfigView) -> Seq<Seq<Seq<char>>> {
    seq![
        seq!["init"@, "--quiet"@],
        seq!["remote"@, "add"@, "origin"@, config.repo],
        seq!["fetch"@, "--quiet"@, "--depth"@, "1"@, "origin"@, config.rev],
        seq!["checkout"@, "--quiet"@, "--detach"@, "FETCH_HEAD"@],
    ]
}

impl PackPlugin {
    /// How the source presents itself.
    pub fn describe(&self) -> (d: Describe)
        ensures
            d.deep_view() == (DescribeView {
                name: "pack"@,
                link_namespace: "pack"@,
                fetch_style: FetchStyle::Snapshot,
                auth_realm: None,
                protocol: plugin::PROTOCOL,
            }),
    {
        describe_source("pack", "pack", FetchStyle::Snapshot)
    }

    /// Refuses a configuration that cannot be fetched with.
    pub fn validate_config(&self, config: &str) -> (r: Result<(), String>)
        ensures
            plugin::outcome(r) == (match config_of(config@) {
                Err(e) => Err(e),
                Ok(c) => match config_error(c) {
                    Some(e) => Err(e),
                    None => Ok(()),
                },
            }),
            document::tells_unknown_in(config_shape(), config@, document::refusal(r)),
    {
        match parse_config(config) {
            Err(e) => Err(e),
            Ok(c) => match find_fault(&c) {
                Some(e) => Err(e),
                None => Ok(()),
            },
        }
    }

    /// Git carries its own credentials.
    pub fn auth_status(&self) -> (r: AuthStatus)
        ensures
            r.deep_view() == AuthStatusView::NotRequired,
    {
        AuthStatus::NotRequired
    }

    /// The configuration to import with, where a snapshot is asked for and the
    /// configuration is in order.
    pub fn plan(&self, spec: &RunSpec, config: &str) -> (r: Result<Config, String>)
        ensures
            config_result(r) == if *spec !is Snapshot {
                Err("pack is a snapshot source"@)
            } else {
                match config_of(config@) {
                    Err(e) => Err(e),
                    Ok(c) => match config_error(c) {
                        Some(e) => Err(e),
                        None => Ok(c),
                    },
                }
            },
    {
        match spec {
            RunSpec::Snapshot => match parse_config(config) {
                Err(e) => Err(e),
                Ok(c) => match find_fault(&c) {
                    Some(e) => Err(e),
                    None => Ok(c),
                },
            },
            _ => Err("pack is a snapshot source".to_string()),
        }
    }

    /// The whole result where the checkpoint is the pin itself.
    pub fn if_unchanged(&self, config: &Config, checkpoint: &Option<String>) -> (r: Option<
        FetchResult,
    >)
        ensures
            r.deep_view() == checked(config.deep_view(), checkpoint.deep_view()),
    {
        if is_text(checkpoint, config.rev.as_str()) {
            let notes = "pack '".to_string().concat(config.template.as_str()).concat(
                "' unchanged at ",
            ).concat(take_chars(config.rev.as_str(), 12).as_str());
            Some(nothing_new(notes, config.rev.clone()))
        } else {
            None
        }
    }

    /// The commands with which git fetches the pinned commit, in order.
    pub fn git_steps(&self, config: &Config) -> (r: Vec<Vec<String>>)
        ensures
            r.deep_view() == git_steps_of(config.deep_view()),
    {
        let mut init: Vec<String> = Vec::new();
        init.push("init".to_string());
        init.push("--quiet".to_string());
        let mut remote: Vec<String> = Vec::new();
        remote.push("remote".to_string());
        remote.push("add".to_string());
        remote.push("origin".to_string());
        remote.push(config.repo.clone());
        let mut fetch: Vec<String> = Vec::new();
        fetch.push("fetch".to_string());
        fetch.push("--quiet".to_string());
        fetch.push("--depth".to_string());
        fetch.push("1".to_string());
        fetch.push("origin".to_string());
        fetch.push(config.rev.clone());
        let mut checkout: Vec<String> = Vec::new();
        checkout.push("checkout".to_string());
        checkout.push("--quiet".to_string());
        checkout.push("--detach".to_string());
        checkout.push("FETCH_HEAD".to_string());
        let ghost steps = git_steps_of(config.deep_view());
        assert(init.deep_view() =~= steps[0]);
        assert(remote.deep_view() =~= steps[1]);
        assert(fetch.deep_view() =~= steps[2]);
        assert(checkout.deep_view() =~= steps[3]);
        let mut r: Vec<Vec<String>> = Vec::new();
        r.push(init);
        r.push(remote);
        r.push(fetch);
        r.push(checkout);
        assert(r.deep_view() =~= steps);
        r
    }

    /// What a git command that ended in failure is reported as.
    pub fn git_failure(&self, args: &Vec<String>, stderr: &str) -> (r: String)
        ensures
            r@ == "git "@ + text::joined(args.deep_view(), " "@) + " failed: "@ + text::trimmed(
                stderr@,
            ),
    {
        "git ".to_string().concat(join(args, " ").as_str()).concat(" failed: ").concat(
            trim(stderr).as_str(),
        )
    }

    /// What a git command that could not be run is reported as.
    pub fn git_not_run(&self, args: &Vec<String>, error: &str) -> (r: String)
        ensures
            r@ == "running git "@ + text::joined(args.deep_view(), " "@) + ": "@ + error@,
    {
        "running git ".to_string().concat(join(args, " ").as_str()).concat(": ").concat(error)
    }

    /// Why the template cannot be imported, if so: the repository has no manifest
    /// for it, or the manifest declares identity substitutions, of which there
    /// are `substitutions`. Such a template carries dummy identities.
    pub fn import_fault(&self, config: &Config, substitutions: Option<usize>) -> (r: Option<String>)
        ensures
            r.deep_view() == (match substitutions {
                None => Some(
                    "repo at "@ + short(config.rev@) + " offers no template '"@ + config.template@
                        + "' (no "@ + config.template@ + "/kyyn-template.ron)"@,
                ),
                Some(n) => if n > 0 {
                    Some(
                        "template '"@ + config.template@
                            + "' declares identity substitutions — it is an init-time starter, not an importable pack"@,
                    )
                } else {
                    None
                },
            }),
    {
        match substitutions {
            None => Some(
                "repo at ".to_string().concat(
                    take_chars(config.rev.as_str(), 12).as_str(),
                ).concat(" offers no template '").concat(config.template.as_str()).concat(
                    "' (no ",
                ).concat(config.template.as_str()).concat("/kyyn-template.ron)"),
            ),
            Some(n) => if n > 0 {
                Some(
                    "template '".to_string().concat(config.template.as_str()).concat(
                        "' declares identity substitutions — it is an init-time starter, not an importable pack",
                    ),
                )
            } else {
                None
            },
        }
    }

    /// Whether a walk over the template looks at an entry of this name.
    pub fn walks(&self, name: &str) -> (r: bool)
        ensures
            r == (name@ != ".git"@ && name@ != "target"@),
    {
        !same_text(name, ".git") && !same_text(name, "target")
    }
}

/// The item of an imported file is known by its path and holds that path and the digest
/// of its bytes; the template, the path and the pin ride along.
pub proof fn law_an_imported_file_is_its_path_and_content(v: ImportView, bytes: Seq<u8>)
    ensures
        ({
            let item = v.item(bytes);
            &&& item.id == v.files.pending[0]
            &&& item.files == seq![v.files.pending[0]]
            &&& item.kind == "file"@
            &&& item.content_hash == digest::sha256_text(bytes)
            &&& item.version is None
            &&& item.locator is None
            &&& item.file_hashes == Map::<Seq<char>, Seq<char>>::empty()
            &&& item.meta == v.template + " · "@ + v.files.pending[0] + " · "@
                + text::first_chars(v.rev, 12)
        }),
        v.result().items == v.files.items,
        v.result().next_checkpoint == Some(v.rev),
        v.result().notes == "pack '"@ + v.template + "' at "@ + text::first_chars(v.rev, 12),
{
}

/// A pin is a commit in full: forty hexadecimal digits in either case, one more or one
/// less is none, and neither is any other character.
pub proof fn law_only_a_full_commit_is_a_pin(c: ConfigView)
    ensures
        config_error(c) is None ==> c.rev.len() == 40,
        config_error(c) is None <==> {
            &&& c.template.len() > 0 && forall|i: int|
                0 <= i < c.template.len() ==> (text::ascii_alphanumeric(#[trigger] c.template[i])
                    || c.template[i] == '-' || c.template[i] == '_')
            &&& c.rev.len() == 40 && forall|i: int|
                0 <= i < c.rev.len() ==> (('0' <= #[trigger] c.rev[i] && c.rev[i] <= '9') || (
                'a' <= c.rev[i] && c.rev[i] <= 'f') || ('A' <= c.rev[i] && c.rev[i] <= 'F'))
            &&& c.repo.len() > 0 && c.repo[0] != '-' && forall|i: int|
                0 <= i < c.repo.len() ==> !text::white_space(#[trigger] c.repo[i])
        },
{
    assert forall|i: int| 0 <= i < c.rev.len() implies (hex_digit(#[trigger] c.rev[i]) <==> (('0'
        <= c.rev[i] && c.rev[i] <= '9') || ('a' <= c.rev[i] && c.rev[i] <= 'f') || ('A' <= c.rev[i]
        && c.rev[i] <= 'F'))) by {}
}

/// Git fetches the pinned commit of the configured repository and nothing else: the
/// repository is the one origin, the commit is fetched from it without its history, and
/// what was fetched is checked out.
pub proof fn law_git_fetches_the_pin_alone(c: ConfigView)
    ensures
        git_steps_of(c).len() == 4,
        git_steps_of(c)[1].last() == c.repo,
        git_steps_of(c)[2].last() == c.rev,
        git_steps_of(c)[2].contains("--depth"@) && git_steps_of(c)[2].contains("1"@),
        git_steps_of(c)[1][2] == git_steps_of(c)[2][4],
        git_steps_of(c)[3].last() == "FETCH_HEAD"@,
        forall|i: int|
            0 <= i < 4 ==> (#[trigger] git_steps_of(c)[i]).contains(c.rev) && c.rev.len() == 40
                ==> i == 2 || (i == 1 && c.repo == c.rev),
{
    let s = git_steps_of(c);
    assert(s[2][2] == "--depth"@ && s[2][3] == "1"@);
    reveal_strlit("init");
    reveal_strlit("--quiet");
    reveal_strlit("remote");
    reveal_strlit("add");
    reveal_strlit("origin");
    reveal_strlit("checkout");
    reveal_strlit("--detach");
    reveal_strlit("FETCH_HEAD");
}

/// A configuration says what the entries of its own names say, each field on its own, and
/// has the documented default where an entry is left out; without names the entries go by
/// place.
pub proof fn law_a_configuration_says_what_its_entries_say(
    entries: Seq<(document::ReadingView, document::ReadingView)>,
    list: Seq<document::ReadingView>,
)
    requires
        document::named(entries),
    ensures
        config_in(DocumentView::Table(entries)) matches Ok(c) ==> {
            &&& c.template == match document::given(entries, "template"@) {
                Some(r) => r.text->Ok_0,
                None => Seq::<char>::empty(),
            }
            &&& c.rev == match document::given(entries, "rev"@) {
                Some(r) => r.text->Ok_0,
                None => Seq::<char>::empty(),
            }
            &&& c.repo == match document::given(entries, "repo"@) {
                Some(r) => r.text->Ok_0,
                None => DEFAULT_REPO@,
            }
        },
        config_in(DocumentView::List(list)) matches Ok(c) ==> {
            &&& c.template == if list.len() > 0 {
                list[0].text->Ok_0
            } else {
                Seq::<char>::empty()
            }
            &&& c.rev == if list.len() > 1 {
                list[1].text->Ok_0
            } else {
                Seq::<char>::empty()
            }
            &&& c.repo == if list.len() > 2 {
                list[2].text->Ok_0
            } else {
                DEFAULT_REPO@
            }
        },
        config_in(DocumentView::Table(entries)) is Ok ==> document::given(entries, "template"@) is Some && document::given(entries, "rev"@) is Some,
{
    let shape = config_shape();
    reveal_strlit("template");
    reveal_strlit("rev");
    reveal_strlit("repo");
    assert(shape.names[0] == "template"@);
    assert(shape.names[1] == "rev"@);
    assert(shape.names[2] == "repo"@);
    assert(shape.names.len() == 3);
    assert(shape.names[0].len() == 8);
    assert(shape.names[1].len() == 3);
    assert(shape.names[2].len() == 4);
    assert forall|i: int, j: int| 0 <= i < j < 3 implies #[trigger] shape.names[i]
        != #[trigger] shape.names[j] by {
        assert(shape.names[i].len() != shape.names[j].len() || shape.names[i][0] != shape.names[j][0]);
    }
    assert(shape.names.no_duplicates());
    if config_in(DocumentView::Table(entries)) is Ok {
        document::law_a_field_holds_what_its_name_gives(shape, entries, 0);
        document::law_a_field_holds_what_its_name_gives(shape, entries, 1);
        document::law_a_field_holds_what_its_name_gives(shape, entries, 2);
    }
    if config_in(DocumentView::List(list)) is Ok {
        document::law_entries_without_names_go_by_place(shape, list, 0);
        document::law_entries_without_names_go_by_place(shape, list, 1);
        document::law_entries_without_names_go_by_place(shape, list, 2);
    }
}

/// What is stated of a configuration is stated of its own fields.
pub proof fn law_a_configuration_is_its_fields(c: Config)
    ensures
        c.deep_view().template == c.template@,
        c.deep_view().rev == c.rev@,
        c.deep_view().repo == c.repo@,
{
}

} // verus!
