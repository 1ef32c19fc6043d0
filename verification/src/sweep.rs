//! `sweep`: a directory tree as a source.
//!
//! Every file that a glob pattern selects is one item. Its identity is its path
//! below the root, for file names carry information; its version is its content.

use vstd::prelude::*;
use crate::digest;
use crate::document;
use crate::document::{
    one_text, read_document, shape_config, take_number, take_text, take_texts, Document,
    DocumentView, Kind, Shape, ShapeView,
};
use crate::patterns;
use crate::patterns::{check_patterns, find_bad, refuse, Matching};
use crate::plugin;
use crate::plugin::{
    describe_source, AuthStatus, AuthStatusView, Describe, DescribeView, FetchResult,
    FetchResultView, FetchStyle, RunSpec,
};
use crate::text;
use crate::text::{decimal, has_prefix, has_suffix, is_bare_token, join, same_text, skip_chars};
use crate::tree;
use crate::tree::{select, Gathering, GatheringView};

verus! {

/// The source that sweeps a directory tree.
pub struct SweepPlugin;

/// The configuration of one such source.
#[derive(Debug, PartialEq, Eq)]
pub struct Config {
    /// The tree to sweep. `~` stands for the home directory.
    pub root: String,
    /// Glob patterns relative to the root, everything by default.
    pub patterns: Vec<String>,
    /// The kind of the items, `file` by default.
    pub kind: String,
    /// The size over which a file is left out with a note.
    pub max_file_bytes: u64,
}

#[verifier::ext_equal]
pub struct ConfigView {
    pub root: Seq<char>,
    pub patterns: Seq<Seq<char>>,
    pub kind: Seq<char>,
    pub max_file_bytes: u64,
}

impl DeepView for Config {
    type V = ConfigView;

    open spec fn deep_view(&self) -> ConfigView {
        ConfigView {
            root: self.root@,
            patterns: self.patterns.deep_view(),
            kind: self.kind@,
            max_file_bytes: self.max_file_bytes,
        }
    }
}

/// The fields of the configuration.
pub open spec fn config_shape() -> ShapeView {
    ShapeView {
        title: "Config"@,
        names: seq!["root"@, "patterns"@, "kind"@, "max_file_bytes"@],
        kinds: seq![Kind::Text, Kind::Texts, Kind::Text, Kind::Number],
        required: 1,
    }
}

/// What a parsed configuration means.
pub open spec fn config_in(parsed: DocumentView) -> Result<ConfigView, Seq<char>> {
    match document::shaped(
        parsed,
        config_shape(),
        "sweep config shape (root, patterns, kind, max_file_bytes): "@,
    ) {
        Err(e) => Err(e),
        Ok(slots) => Ok(
            ConfigView {
                root: document::text_or(slots, 0, Seq::empty()),
                patterns: document::texts_or(slots, 1, seq!["**/*"@]),
                kind: document::text_or(slots, 2, "file"@),
                max_file_bytes: document::number_or(slots, 3, 67108864),
            },
        ),
    }
}

/// What a configuration text means.
pub open spec fn config_of(text: Seq<char>) -> Result<ConfigView, Seq<char>> {
    match document::document_of(text) {
        Err(e) => Err("sweep config: "@ + e),
        Ok(parsed) => config_in(parsed),
    }
}

pub open spec fn config_result(r: Result<Config, String>) -> Result<ConfigView, Seq<char>> {
    match r {
        Ok(c) => Ok(c.deep_view()),
        Err(e) => Err(e@),
    }
}

/// The configuration that a parsed one is.
pub fn config_from(parsed: &Document) -> (r: Result<Config, String>)
    ensures
        config_result(r) == config_in(parsed.deep_view()),
        document::tells_unknown(config_shape(), parsed.deep_view(), document::refusal(r)),
{
    let mut kinds: Vec<Kind> = Vec::new();
    kinds.push(Kind::Text);
    kinds.push(Kind::Texts);
    kinds.push(Kind::Text);
    kinds.push(Kind::Number);
    let shape = Shape {
        title: "Config",
        names: &["root", "patterns", "kind", "max_file_bytes"],
        kinds,
        required: 1,
    };
    assert(shape.names.deep_view() =~= config_shape().names);
    assert(shape.kinds@ =~= config_shape().kinds);
    match shape_config(
        parsed,
        &shape,
        "sweep config shape (root, patterns, kind, max_file_bytes): ",
    ) {
        Err(e) => Err(e),
        Ok(slots) => {
            let empty = String::new();
            assert(empty@ =~= Seq::<char>::empty());
            Ok(
                Config {
                    root: take_text(&slots, 0, empty.as_str()),
                    patterns: take_texts(&slots, 1, one_text("**/*")),
                    kind: take_text(&slots, 2, "file"),
                    max_file_bytes: take_number(&slots, 3, 67108864),
                },
            )
        },
    }
}

/// Reads a configuration. Unknown keys are errors.
pub fn parse_config(text: &str) -> (r: Result<Config, String>)
    ensures
        config_result(r) == config_of(text@),
        document::tells_unknown_in(config_shape(), text@, document::refusal(r)),
{
    match read_document(text) {
        Err(e) => Err("sweep config: ".to_string().concat(e.as_str())),
        Ok(parsed) => config_from(&parsed),
    }
}

/// What is wrong with a configuration, if anything, given the first of its patterns
/// that does not compile.
pub open spec fn fault(c: ConfigView, bad: Option<(Seq<char>, Seq<char>)>) -> Option<Seq<char>> {
    if bad is Some {
        patterns::refusal("pattern"@, bad)
    } else if !text::bare_token(c.kind, false) {
        Some("kind '"@ + c.kind + "' must be a bare token"@)
    } else {
        None
    }
}

/// What is wrong with a configuration, if anything.
pub open spec fn config_error(c: ConfigView) -> Option<Seq<char>> {
    fault(c, patterns::bad_pattern(c.patterns))
}

/// What is wrong with a configuration, given the first of its patterns that does
/// not compile.
pub fn find_fault(c: &Config, bad: &Option<(String, String)>) -> (r: Option<String>)
    ensures
        r.deep_view() == fault(c.deep_view(), bad.deep_view()),
{
    if bad.is_some() {
        return refuse("pattern", bad);
    }
    if !is_bare_token(c.kind.as_str(), false) {
        return Some(
            "kind '".to_string().concat(c.kind.as_str()).concat("' must be a bare token"),
        );
    }
    None
}

/// `path` below `base`: an absolute path stands for itself, and one separator
/// comes between the two.
pub open spec fn below(base: Seq<char>, path: Seq<char>) -> Seq<char> {
    if text::starts_with(path, "/"@) {
        path
    } else if base.len() == 0 || text::ends_with(base, "/"@) {
        base + path
    } else {
        base + "/"@ + path
    }
}

/// A path with a leading `~` replaced by the home directory.
pub open spec fn home_expanded(path: Seq<char>, home: Option<Seq<char>>) -> Result<
    Seq<char>,
    Seq<char>,
> {
    if text::starts_with(path, "~/"@) {
        match home {
            Some(h) => Ok(below(h, text::without_chars(path, 2))),
            None => Err("$HOME not set"@),
        }
    } else if path == "~"@ {
        match home {
            Some(h) => Ok(h),
            None => Err("$HOME not set"@),
        }
    } else {
        Ok(path)
    }
}

/// A path with a leading `~` replaced by the home directory, where that is
/// known.
pub fn expand_home(path: &str, home: &Option<String>) -> (r: Result<String, String>)
    ensures
        document::result_view(r) == home_expanded(path@, home.deep_view()),
{
    if has_prefix(path, "~/") {
        match home {
            Some(h) => {
                let rest = skip_chars(path, 2);
                if has_prefix(rest.as_str(), "/") {
                    Ok(rest)
                } else if h.as_str().unicode_len() == 0 || has_suffix(h.as_str(), "/") {
                    Ok(h.clone().concat(rest.as_str()))
                } else {
                    Ok(h.clone().concat("/").concat(rest.as_str()))
                }
            },
            None => Err("$HOME not set".to_string()),
        }
    } else if same_text(path, "~") {
        match home {
            Some(h) => Ok(h.clone()),
            None => Err("$HOME not set".to_string()),
        }
    } else {
        Ok(path.to_string())
    }
}

/// A sweep in progress.
pub struct Sweep {
    kind: String,
    cap: u64,
    files: Gathering,
}

#[verifier::ext_equal]
pub struct SweepView {
    pub kind: Seq<char>,
    pub cap: u64,
    pub files: GatheringView,
}

impl View for Sweep {
    type V = SweepView;

    closed spec fn view(&self) -> SweepView {
        SweepView { kind: self.kind@, cap: self.cap, files: self.files@ }
    }
}

impl SweepView {
    /// The item that the next file becomes: the path as it is shown and the time
    /// of its last change ride along.
    pub open spec fn item(self, bytes: Seq<u8>, shown: Seq<char>, modified: nat) -> plugin::ItemView {
        let path = self.files.pending[0];
        digest::file_item_view(
            path,
            self.kind,
            path,
            bytes,
            shown + " · modified "@ + text::decimal_text(modified),
        )
    }
}

/// A sweep before its first file.
pub open spec fn opening(config: ConfigView, selected: Seq<Seq<char>>) -> SweepView {
    SweepView {
        kind: config.kind,
        cap: config.max_file_bytes,
        files: GatheringView { pending: selected, items: Seq::empty(), notes: Seq::empty() },
    }
}

impl Sweep {
    /// Begins with the files that were selected, in this order.
    pub fn over(config: &Config, selected: Vec<String>) -> (s: Sweep)
        ensures
            s@ == opening(config.deep_view(), selected.deep_view()),
    {
        let files = Gathering::new(selected, Vec::new(), Vec::new());
        assert(files@.items =~= Seq::empty());
        assert(files@.notes =~= Seq::empty());
        Sweep { kind: config.kind.clone(), cap: config.max_file_bytes, files }
    }

    /// Begins with the paths of all files below the root.
    pub fn begin(config: &Config, paths: Vec<String>) -> (r: Result<Sweep, String>)
        ensures
            match r {
                Ok(s) => patterns::patterns_error("pattern"@, config.deep_view().patterns) is None
                    && s@ == opening(
                    config.deep_view(),
                    tree::selection(
                        paths.deep_view(),
                        config.deep_view().patterns,
                        patterns::path_aware(),
                    ),
                ),
                Err(e) => patterns::patterns_error("pattern"@, config.deep_view().patterns) == Some(
                    e@,
                ),
            },
    {
        if let Some(e) = check_patterns("pattern", &config.patterns) {
            return Err(e);
        }
        let matching = Matching {
            case_sensitive: false,
            literal_separator: true,
            literal_leading_dot: true,
        };
        Ok(Sweep::over(config, select(paths, &config.patterns, matching)))
    }

    /// The file to be looked at next.
    pub fn next_path(&self) -> (r: Option<&String>)
        ensures
            match r {
                Some(p) => self@.files.pending.len() > 0 && p@ == self@.files.pending[0],
                None => self@.files.pending.len() == 0,
            },
    {
        self.files.next_path()
    }

    /// Whether the next file, of this size, is to be read. Where it is over the
    /// cap it is left out with a note.
    pub fn measure(&mut self, size: u64) -> (r: bool)
        requires
            old(self)@.files.pending.len() > 0,
        ensures
            r == (size <= old(self)@.cap),
            final(self)@ == (SweepView {
                files: if r {
                    old(self)@.files
                } else {
                    old(self)@.files.skipping(size as nat, old(self)@.cap as nat)
                },
                ..old(self)@
            }),
    {
        let cap = self.cap;
        self.files.fits(size, cap)
    }

    /// Takes the bytes of the next file, the path under which it is shown, and the
    /// second of its last change.
    pub fn take(&mut self, bytes: &[u8], shown: &str, modified: u64)
        requires
            old(self)@.files.pending.len() > 0,
        ensures
            final(self)@ == (SweepView {
                files: old(self)@.files.keeping(
                    old(self)@.item(bytes@, shown@, modified as nat),
                ),
                ..old(self)@
            }),
    {
        let path = match self.files.next_path() {
            Some(p) => p.clone(),
            None => {
                return ;
            },
        };
        let meta = shown.to_string().concat(" · modified ").concat(decimal(modified).as_str());
        let kind = self.kind.clone();
        self.files.keep_as(path.as_str(), kind.as_str(), bytes, meta);
    }

    /// The result of the run.
    pub fn finish(self) -> (r: FetchResult)
        ensures
            r.deep_view() == (FetchResultView {
                items: self@.files.items,
                notes: text::joined(self@.files.notes, "; "@),
                next_checkpoint: None,
            }),
    {
        let (items, notes) = self.files.finish();
        FetchResult { items, notes: join(&notes, "; "), next_checkpoint: None }
    }
}

impl SweepPlugin {
    /// How the source presents itself.
    pub fn describe(&self) -> (d: Describe)
        ensures
            d.deep_view() == (DescribeView {
                name: "sweep"@,
                link_namespace: "file"@,
                fetch_style: FetchStyle::Sweep,
                auth_realm: None,
                protocol: plugin::PROTOCOL,
            }),
    {
        describe_source("sweep", "file", FetchStyle::Sweep)
    }

    /// Refuses a configuration that cannot be swept with.
    pub fn validate_config(&self, config: &str) -> (r: Result<(), String>)
        ensures
            plugin::outcome(r) == (match config_of(config@) {
                Err(e) => Err(e),
                Ok(c) => match config_error(c) {
                    Some(e) => Err(e),
                    None => Ok(()),
                },
            }),
            document::tells_unknown_in(config_shape(), config@, document::refusal(r)),
    {
        match parse_config(config) {
            Err(e) => Err(e),
            Ok(c) => match find_fault(&c, &find_bad(&c.patterns)) {
                Some(e) => Err(e),
                None => Ok(()),
            },
        }
    }

    /// A directory needs no sign-in.
    pub fn auth_status(&self) -> (r: AuthStatus)
        ensures
            r.deep_view() == AuthStatusView::NotRequired,
    {
        AuthStatus::NotRequired
    }

    /// The configuration to sweep with, where a sweep is asked for.
    pub fn plan(&self, spec: &RunSpec, config: &str) -> (r: Result<Config, String>)
        ensures
            config_result(r) == if *spec is Sweep {
                config_of(config@)
            } else {
                Err("sweep only sweeps"@)
            },
    {
        match spec {
            RunSpec::Sweep => parse_config(config),
            _ => Err("sweep only sweeps".to_string()),
        }
    }

    /// What a root that is no directory is reported as.
    pub fn root_failure(&self, root: &str) -> (r: String)
        ensures
            r@ == "root "@ + root@ + " is not a directory"@,
    {
        "root ".to_string().concat(root).concat(" is not a directory")
    }
}

/// The item of a swept file is known by its path below the root and holds that path and
/// the digest of its bytes; it is of the configured kind, and how it is shown and when it
/// was last changed ride along.
pub proof fn law_a_swept_file_is_its_path_and_content(
    v: SweepView,
    bytes: Seq<u8>,
    shown: Seq<char>,
    modified: nat,
)
    ensures
        ({
            let item = v.item(bytes, shown, modified);
            &&& item.id == v.files.pending[0]
            &&& item.files == seq![v.files.pending[0]]
            &&& item.kind == v.kind
            &&& item.content_hash == digest::sha256_text(bytes)
            &&& item.version is None
            &&& item.locator is None
            &&& item.file_hashes == Map::<Seq<char>, Seq<char>>::empty()
            &&& item.meta == shown + " · modified "@ + text::decimal_text(modified)
        }),
{
}

/// A sweep begins with the kind and the cap of its configuration, all selected files to
/// be read, and nothing else.
pub proof fn law_what_a_sweep_begins_with(config: ConfigView, selected: Seq<Seq<char>>)
    ensures
        opening(config, selected).kind == config.kind,
        opening(config, selected).cap == config.max_file_bytes,
        opening(config, selected).files.pending == selected,
        opening(config, selected).files.items.len() == 0,
        opening(config, selected).files.notes.len() == 0,
{
}

/// Only a `~` that stands alone or before a `/` stands for the home directory; what
/// follows it lies below that directory, with one separator between them. Every other
/// path stays as it is, and a home directory that is not known matters to none of them.
pub proof fn law_only_a_leading_tilde_is_expanded(
    rest: Seq<char>,
    home: Seq<char>,
    path: Seq<char>,
)
    requires
        rest.len() > 0 ==> rest[0] != '/',
    ensures
        home.len() > 0 && home.last() != '/' ==> home_expanded("~/"@ + rest, Some(home)) == Ok::<
            Seq<char>,
            Seq<char>,
        >(home + "/"@ + rest),
        home.len() > 0 && home.last() == '/' ==> home_expanded("~/"@ + rest, Some(home)) == Ok::<
            Seq<char>,
            Seq<char>,
        >(home + rest),
        home_expanded("~"@, Some(home)) == Ok::<Seq<char>, Seq<char>>(home),
        home_expanded("~/"@ + rest, None) is Err,
        home_expanded("~"@, None) is Err,
        path != "~"@ && !text::starts_with(path, "~/"@) ==> home_expanded(path, Some(home)) == Ok::<
            Seq<char>,
            Seq<char>,
        >(path) && home_expanded(path, None) == Ok::<Seq<char>, Seq<char>>(path),
{
    reveal_strlit("~/");
    reveal_strlit("~");
    reveal_strlit("/");
    let whole = "~/"@ + rest;
    assert(whole.take(2) =~= "~/"@);
    assert(text::without_chars(whole, 2) =~= rest);
    if rest.len() > 0 {
        assert(!text::starts_with(rest, "/"@)) by {
            if text::starts_with(rest, "/"@) {
                assert(rest.take(1)[0] == '/');
            }
        }
    }
    if home.len() > 0 {
        let tail = home.skip(home.len() - 1);
        assert(tail[0] == home.last());
        if home.last() == '/' {
            assert(tail =~= "/"@);
        }
    }
}

/// A configuration is good exactly where all of its patterns compile and its kind is a
/// bare token; where both are at fault, the pattern is named.
pub proof fn law_which_configurations_are_good(c: ConfigView, bad: Option<(Seq<char>, Seq<char>)>)
    ensures
        fault(c, bad) is None <==> bad is None && c.kind.len() > 0 && forall|i: int|
            0 <= i < c.kind.len() ==> (text::ascii_alphanumeric(#[trigger] c.kind[i]) || c.kind[i]
                == '-'),
        bad matches Some((p, e)) ==> fault(c, bad) == Some("pattern"@ + " '"@ + p + "': "@ + e),
{
}

/// A configuration says what the entries of its own names say, each field on its own, and
/// has the documented default where an entry is left out; without names the entries go by
/// place.
pub proof fn law_a_configuration_says_what_its_entries_say(
    entries: Seq<(document::ReadingView, document::ReadingView)>,
    list: Seq<document::ReadingView>,
)
    requires
        document::named(entries),
    ensures
        config_in(DocumentView::Table(entries)) matches Ok(c) ==> {
            &&& c.root == match document::given(entries, "root"@) {
                Some(r) => r.text->Ok_0,
                None => Seq::<char>::empty(),
            }
            &&& c.patterns == match document::given(entries, "patterns"@) {
                Some(r) => r.texts->Ok_0,
                None => seq!["**/*"@],
            }
            &&& c.kind == match document::given(entries, "kind"@) {
                Some(r) => r.text->Ok_0,
                None => "file"@,
            }
            &&& c.max_file_bytes == match document::given(entries, "max_file_bytes"@) {
                Some(r) => r.number->Ok_0,
                None => 67108864,
            }
        },
        config_in(DocumentView::List(list)) matches Ok(c) ==> {
            &&& c.root == if list.len() > 0 {
                list[0].text->Ok_0
            } else {
                Seq::<char>::empty()
            }
            &&& c.patterns == if list.len() > 1 {
                list[1].texts->Ok_0
            } else {
                seq!["**/*"@]
            }
            &&& c.kind == if list.len() > 2 {
                list[2].text->Ok_0
            } else {
                "file"@
            }
            &&& c.max_file_bytes == if list.len() > 3 {
                list[3].number->Ok_0
            } else {
                67108864
            }
        },
        config_in(DocumentView::Table(entries)) is Ok ==> document::given(entries, "root"@) is Some,
{
    let shape = config_shape();
    reveal_strlit("root");
    reveal_strlit("patterns");
    reveal_strlit("kind");
    reveal_strlit("max_file_bytes");
    assert(shape.names[0] == "root"@);
    assert(shape.names[1] == "patterns"@);
    assert(shape.names[2] == "kind"@);
    assert(shape.names[3] == "max_file_bytes"@);
    assert(shape.names.len() == 4);
    assert(shape.names[0].len() == 4);
    assert(shape.names[1].len() == 8);
    assert(shape.names[2].len() == 4);
    assert(shape.names[3].len() == 14);
    assert(shape.names[0][0] != shape.names[2][0]);
    assert forall|i: int, j: int| 0 <= i < j < 4 implies #[trigger] shape.names[i]
        != #[trigger] shape.names[j] by {
        assert(shape.names[i].len() != shape.names[j].len() || shape.names[i][0] != shape.names[j][0]);
    }
    assert(shape.names.no_duplicates());
    if config_in(DocumentView::Table(entries)) is Ok {
        document::law_a_field_holds_what_its_name_gives(shape, entries, 0);
        document::law_a_field_holds_what_its_name_gives(shape, entries, 1);
        document::law_a_field_holds_what_its_name_gives(shape, entries, 2);
        document::law_a_field_holds_what_its_name_gives(shape, entries, 3);
    }
    if config_in(DocumentView::List(list)) is Ok {
        document::law_entries_without_names_go_by_place(shape, list, 0);
        document::law_entries_without_names_go_by_place(shape, list, 1);
        document::law_entries_without_names_go_by_place(shape, list, 2);
        document::law_entries_without_names_go_by_place(shape, list, 3);
    }
}

/// What is stated of a configuration is stated of its own fields.
pub proof fn law_a_configuration_is_its_fields(c: Config)
    ensures
        c.deep_view().root == c.root@,
        c.deep_view().kind == c.kind@,
        c.deep_view().patterns == c.patterns.deep_view(),
        c.deep_view().max_file_bytes == c.max_file_bytes,
{
}

/// What follows `~/` stands for itself where it is absolute, and an empty home directory
/// adds nothing before it.
pub proof fn law_an_absolute_rest_stands_for_itself(
    rest: Seq<char>,
    home: Seq<char>,
)
    ensures
        rest.len() > 0 && rest[0] == '/' ==> home_expanded("~/"@ + rest, Some(home)) == Ok::<
            Seq<char>,
            Seq<char>,
        >(rest),
        home.len() == 0 ==> home_expanded("~/"@ + rest, Some(home)) == Ok::<Seq<char>, Seq<char>>(
            rest,
        ),
{
    reveal_strlit("~/");
    reveal_strlit("/");
    let whole = "~/"@ + rest;
    assert(whole.take(2) =~= "~/"@);
    assert(text::without_chars(whole, 2) =~= rest);
    if rest.len() > 0 && rest[0] == '/' {
        assert(rest.take(1) =~= "/"@);
    }
    if home.len() == 0 {
        assert(home + rest =~= rest);
    }
}

} // verus!
