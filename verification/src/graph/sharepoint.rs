//! `sharepoint-file`: one shared file or folder as a source.
//!
//! A file is read where its version moved. A folder is walked, and of the files
//! that a glob pattern selects those are read that are new or have changed.

use base64::Engine;
use vstd::prelude::*;
use vstd::utf8::*;
use crate::digest;
use crate::digest::sha256_hex;
use crate::document;
use crate::document::{
    one_text, read_document, shape_config, take_number, take_text, take_texts, Document,
    DocumentView, Kind, Shape, ShapeView,
};
use crate::graph::config;
use crate::graph::config::{auth_realm, Config, ConfigView, DEFAULT_CLIENT_ID, DEFAULT_TENANT};
use crate::graph::records::{DriveItem, DriveItemView};
use crate::patterns;
use crate::patterns::{check_patterns, find_bad, is_selected, refuse, Matching};
use crate::plugin;
use crate::plugin::{
    AuthStatus, AuthStatusView, Describe, DescribeView, FetchResult, FetchResultView, FetchStyle,
    Item, ItemView, RunSpec,
};
use crate::text;
use crate::text::{chars_of, decimal, is_bare_token, is_text, same_text, text_between};
use crate::textmap;
use crate::textmap::TextMap;

verus! {

/// The source that tracks a shared file or folder.
pub struct SharepointFilePlugin;

/// The configuration of one such source.
#[derive(Debug, PartialEq, Eq)]
pub struct SpConfig {
    /// The sharing link.
    pub url: String,
    pub client_id: String,
    pub tenant: String,
    /// Of a folder: glob patterns over its paths, everything by default.
    pub patterns: Vec<String>,
    /// The kind of the items, `file` by default.
    pub kind: String,
    /// The size over which a file is left out with a note.
    pub max_file_bytes: u64,
}

#[verifier::ext_equal]
pub struct SpConfigView {
    pub url: Seq<char>,
    pub client_id: Seq<char>,
    pub tenant: Seq<char>,
    pub patterns: Seq<Seq<char>>,
    pub kind: Seq<char>,
    pub max_file_bytes: u64,
}

impl DeepView for SpConfig {
    type V = SpConfigView;

    open spec fn deep_view(&self) -> SpConfigView {
        SpConfigView {
            url: self.url@,
            client_id: self.client_id@,
            tenant: self.tenant@,
            patterns: self.patterns.deep_view(),
            kind: self.kind@,
            max_file_bytes: self.max_file_bytes,
        }
    }
}

/// The fields of the configuration.
pub open spec fn config_shape() -> ShapeView {
    ShapeView {
        title: "SpConfig"@,
        names: seq!["url"@, "client_id"@, "tenant"@, "patterns"@, "kind"@, "max_file_bytes"@],
        kinds: seq![Kind::Text, Kind::Text, Kind::Text, Kind::Texts, Kind::Text, Kind::Number],
        required: 1,
    }
}

/// What a parsed configuration means.
pub open spec fn config_in(parsed: DocumentView) -> Result<SpConfigView, Seq<char>> {
    match document::shaped(
        parsed,
        config_shape(),
        "config (need url; optional client_id, tenant, patterns, kind, max_file_bytes): "@,
    ) {
        Err(e) => Err(e),
        Ok(slots) => Ok(
            SpConfigView {
                url: document::text_or(slots, 0, Seq::empty()),
                client_id: document::text_or(slots, 1, DEFAULT_CLIENT_ID@),
                tenant: document::text_or(slots, 2, DEFAULT_TENANT@),
                patterns: document::texts_or(slots, 3, seq!["**/*"@]),
                kind: document::text_or(slots, 4, "file"@),
                max_file_bytes: document::number_or(slots, 5, 67108864),
            },
        ),
    }
}

/// What a configuration text means.
pub open spec fn config_of(text: Seq<char>) -> Result<SpConfigView, Seq<char>> {
    match document::document_of(text) {
        Err(e) => Err("config: "@ + e),
        Ok(parsed) => config_in(parsed),
    }
}

pub open spec fn config_result(r: Result<SpConfig, String>) -> Result<SpConfigView, Seq<char>> {
    match r {
        Ok(c) => Ok(c.deep_view()),
        Err(e) => Err(e@),
    }
}

/// The configuration that a parsed one is.
pub fn config_from(parsed: &Document) -> (r: Result<SpConfig, String>)
    ensures
        config_result(r) == config_in(parsed.deep_view()),
        document::tells_unknown(config_shape(), parsed.deep_view(), document::refusal(r)),
{
    let mut kinds: Vec<Kind> = Vec::new();
    kinds.push(Kind::Text);
    kinds.push(Kind::Text);
    kinds.push(Kind::Text);
    kinds.push(Kind::Texts);
    kinds.push(Kind::Text);
    kinds.push(Kind::Number);
    let shape = Shape {
        title: "SpConfig",
        names: &["url", "client_id", "tenant", "patterns", "kind", "max_file_bytes"],
        kinds,
        required: 1,
    };
    assert(shape.names.deep_view() =~= config_shape().names);
    assert(shape.kinds@ =~= config_shape().kinds);
    match shape_config(
        parsed,
        &shape,
        "config (need url; optional client_id, tenant, patterns, kind, max_file_bytes): ",
    ) {
        Err(e) => Err(e),
        Ok(slots) => {
            let empty = String::new();
            assert(empty@ =~= Seq::<char>::empty());
            Ok(
                SpConfig {
                    url: take_text(&slots, 0, empty.as_str()),
                    client_id: take_text(&slots, 1, DEFAULT_CLIENT_ID),
                    tenant: take_text(&slots, 2, DEFAULT_TENANT),
                    patterns: take_texts(&slots, 3, one_text("**/*")),
                    kind: take_text(&slots, 4, "file"),
                    max_file_bytes: take_number(&slots, 5, 67108864),
                },
            )
        },
    }
}

/// Reads a configuration. Unknown keys are errors.
pub fn parse_config(text: &str) -> (r: Result<SpConfig, String>)
    ensures
        config_result(r) == config_of(text@),
        document::tells_unknown_in(config_shape(), text@, document::refusal(r)),
{
    match read_document(text) {
        Err(e) => Err("config: ".to_string().concat(e.as_str())),
        Ok(parsed) => config_from(&parsed),
    }
}

/// What is wrong with a configuration, if anything, given the first of its patterns
/// that does not compile.
pub open spec fn fault(c: SpConfigView, bad: Option<(Seq<char>, Seq<char>)>) -> Option<Seq<char>> {
    if bad is Some {
        patterns::refusal("pattern"@, bad)
    } else if !text::bare_token(c.kind, false) {
        Some("kind '"@ + c.kind + "' must be a bare token"@)
    } else {
        None
    }
}

/// What is wrong with a configuration, if anything.
pub open spec fn config_error(c: SpConfigView) -> Option<Seq<char>> {
    fault(c, patterns::bad_pattern(c.patterns))
}

/// What is wrong with a configuration, given the first of its patterns that does
/// not compile.
pub fn find_fault(c: &SpConfig, bad: &Option<(String, String)>) -> (r: Option<String>)
    ensures
        r.deep_view() == fault(c.deep_view(), bad.deep_view()),
{
    if bad.is_some() {
        return refuse("pattern", bad);
    }
    if !is_bare_token(c.kind.as_str(), false) {
        return Some(
            "kind '".to_string().concat(c.kind.as_str()).concat("' must be a bare token"),
        );
    }
    None
}

/// Refuses patterns that do not compile, naming the first of them.
pub fn compile_patterns(list: &Vec<String>) -> (r: Result<(), String>)
    ensures
        match r {
            Ok(_) => patterns::patterns_error("pattern"@, list.deep_view()) is None,
            Err(e) => patterns::patterns_error("pattern"@, list.deep_view()) == Some(e@),
        },
{
    match check_patterns("pattern", list) {
        Some(e) => Err(e),
        None => Ok(()),
    }
}

/// Whether one of the patterns matches a path: `*` stays within one level, `**`
/// crosses levels, and a dotfile matches only where the pattern says so.
pub fn rel_matches(list: &Vec<String>, rel: &str) -> (r: bool)
    ensures
        r == patterns::selects(list.deep_view(), rel@, patterns::path_aware()),
{
    let matching = Matching {
        case_sensitive: false,
        literal_separator: true,
        literal_leading_dot: true,
    };
    is_selected(list, rel, matching)
}

/// The configuration under which such a source signs in.
pub fn graph_config(sp: &SpConfig) -> (r: Config)
    ensures
        r.deep_view() == (ConfigView {
            client_id: sp.client_id@,
            tenant: sp.tenant@,
            owner_addresses: Seq::empty(),
            mail_filter: None,
        }),
{
    let r = Config {
        client_id: sp.client_id.clone(),
        tenant: sp.tenant.clone(),
        owner_addresses: Vec::new(),
        mail_filter: None,
    };
    assert(r.owner_addresses.deep_view() =~= Seq::<Seq<char>>::empty());
    r
}

// Share tokens.

/// The digit of a value below sixty-four in the alphabet of base64 that is safe in
/// addresses: letters, digits, `-` and `_`.
pub open spec fn base64_digit(n: int) -> char {
    if n < 26 {
        (n + 65) as char
    } else if n < 52 {
        (n + 71) as char
    } else if n < 62 {
        (n - 4) as char
    } else if n == 62 {
        '-'
    } else {
        '_'
    }
}

/// A byte, zero behind the last.
pub open spec fn byte_at(bytes: Seq<u8>, k: int) -> int {
    if 0 <= k < bytes.len() {
        bytes[k] as int
    } else {
        0
    }
}

/// The `i`-th group of six bits.
pub open spec fn sextet(bytes: Seq<u8>, i: int) -> int {
    let k = 3 * (i / 4);
    if i % 4 == 0 {
        byte_at(bytes, k) / 4
    } else if i % 4 == 1 {
        byte_at(bytes, k) % 4 * 16 + byte_at(bytes, k + 1) / 16
    } else if i % 4 == 2 {
        byte_at(bytes, k + 1) % 16 * 4 + byte_at(bytes, k + 2) / 64
    } else {
        byte_at(bytes, k + 2) % 64
    }
}

/// Bytes in base64 that is safe in addresses, without padding: one digit for every
/// six bits that have begun.
pub open spec fn base64_url(bytes: Seq<u8>) -> Seq<char> {
    Seq::new((4 * bytes.len() + 2) / 3, |i: int| base64_digit(sextet(bytes, i)))
}

/// Letters, digits, `-` and `_`.
pub open spec fn base64_url_char(c: char) -> bool {
    text::ascii_alphanumeric(c) || c == '-' || c == '_'
}

/// `base64`'s `URL_SAFE_NO_PAD` engine: the bytes six bits at a time, the highest
/// first, each a digit of the alphabet for addresses, and no padding.
#[verifier::external_body]
fn encode_base64_url(bytes: &[u8]) -> (r: String)
    ensures
        r@ == base64_url(bytes@),
{
    base64::engine::general_purpose::URL_SAFE_NO_PAD.encode(bytes)
}

/// The share token of a sharing link: `u!` and the link in unpadded base64 for
/// addresses.
pub open spec fn share_token(url: Seq<char>) -> Seq<char> {
    "u!"@ + base64_url(encode_utf8(url))
}

/// The share token of a sharing link. Behind the `u!` there are letters, digits, `-`
/// and `_` alone.
pub fn encode_share_url(url: &str) -> (r: String)
    ensures
        r@ == share_token(url@),
        forall|i: int| 2 <= i < r@.len() ==> base64_url_char(#[trigger] r@[i]),
{
    proof {
        reveal_strlit("u!");
    }
    let tail = encode_base64_url(url.as_bytes());
    let r = "u!".to_string().concat(tail.as_str());
    assert forall|i: int| 2 <= i < r@.len() implies base64_url_char(#[trigger] r@[i]) by {
        assert(r@[i] == tail@[i - 2]);
        lemma_sextet(encode_utf8(url@), i - 2);
    }
    r
}

proof fn lemma_sextet(bytes: Seq<u8>, i: int)
    requires
        0 <= i,
    ensures
        0 <= sextet(bytes, i) < 64,
        base64_url_char(base64_digit(sextet(bytes, i))),
{
    let k = 3 * (i / 4);
    assert(0 <= byte_at(bytes, k) < 256);
    assert(0 <= byte_at(bytes, k + 1) < 256);
    assert(0 <= byte_at(bytes, k + 2) < 256);
}

proof fn lemma_base64_digit(n: int, m: int)
    requires
        0 <= n < 64,
        0 <= m < 64,
        base64_digit(n) == base64_digit(m),
    ensures
        n == m,
{
}

/// A byte, out of the groups of six bits.
spec fn byte_from(digits: spec_fn(int) -> int, k: int) -> int {
    let i = 4 * (k / 3);
    if k % 3 == 0 {
        digits(i) * 4 + digits(i + 1) / 16
    } else if k % 3 == 1 {
        digits(i + 1) % 16 * 16 + digits(i + 2) / 4
    } else {
        digits(i + 2) % 4 * 64 + digits(i + 3)
    }
}

proof fn lemma_byte_from(bytes: Seq<u8>, k: int)
    requires
        0 <= k < bytes.len(),
    ensures
        byte_from(|i: int| sextet(bytes, i), k) == bytes[k],
{
    let j = 3 * (k / 3);
    let i = 4 * (k / 3);
    assert(i / 4 == k / 3 && (i + 1) / 4 == k / 3 && (i + 2) / 4 == k / 3 && (i + 3) / 4 == k / 3);
    assert(0 <= byte_at(bytes, j) < 256);
    assert(0 <= byte_at(bytes, j + 1) < 256);
    assert(0 <= byte_at(bytes, j + 2) < 256);
}

proof fn lemma_base64_lossless(a: Seq<u8>, b: Seq<u8>)
    requires
        base64_url(a) == base64_url(b),
    ensures
        a == b,
{
    let x = base64_url(a);
    assert(x.len() == (4 * a.len() + 2) / 3);
    assert(base64_url(b).len() == (4 * b.len() + 2) / 3);
    assert(a.len() == b.len());
    assert forall|k: int| 0 <= k < a.len() implies a[k] == b[k] by {
        lemma_byte_from(a, k);
        lemma_byte_from(b, k);
        let i = 4 * (k / 3);
        let last = i + k % 3 + 1;
        assert(last < x.len());
        assert forall|d: int| i <= d <= last implies #[trigger] sextet(a, d) == sextet(b, d) by {
            lemma_sextet(a, d);
            lemma_sextet(b, d);
            assert(x[d] == base64_digit(sextet(a, d)));
            assert(base64_url(b)[d] == base64_digit(sextet(b, d)));
            lemma_base64_digit(sextet(a, d), sextet(b, d));
        }
        assert(sextet(a, i + k % 3) == sextet(b, i + k % 3));
        assert(sextet(a, last) == sextet(b, last));
    }
    assert(a =~= b);
}

/// Share tokens lose nothing: two links have two tokens.
pub proof fn law_share_tokens_tell_links_apart(a: Seq<char>, b: Seq<char>)
    requires
        share_token(a) == share_token(b),
    ensures
        a == b,
{
    reveal_strlit("u!");
    let x = encode_utf8(a);
    let y = encode_utf8(b);
    assert(share_token(a).skip(2) =~= base64_url(x));
    assert(share_token(b).skip(2) =~= base64_url(y));
    lemma_base64_lossless(x, y);
    encode_utf8_decode_utf8(a);
    encode_utf8_decode_utf8(b);
}

// Version maps.

/// The pairs of a version map written in RON, ordered by their keys.
pub uninterp spec fn version_pairs(text: Seq<char>) -> Option<Seq<(Seq<char>, Seq<char>)>>;

/// A version map in RON, or the message of `ron`.
pub uninterp spec fn version_text(pairs: Seq<(Seq<char>, Seq<char>)>) -> Result<
    Seq<char>,
    Seq<char>,
>;

/// A text that begins as the version of a file does, with a quote, a letter or a
/// digit, or that is empty.
pub open spec fn bare_version(text: Seq<char>) -> bool {
    text.len() == 0 || text[0] == '"' || text::ascii_alphanumeric(text[0])
}

/// `ron::from_str` into a `BTreeMap` of texts, its pairs in order. Claimed: the
/// pairs depend on the text alone and have ascending keys, and a text that begins
/// with a quote, a letter or a digit is no map, for a map begins with a `{`.
#[verifier::external_body]
fn read_version_pairs(text: &str) -> (r: Option<Vec<(String, String)>>)
    ensures
        r.deep_view() == version_pairs(text@),
        r matches Some(pairs) ==> textmap::ascending(pairs.deep_view()),
        bare_version(text@) ==> r is None,
{
    let map: std::collections::BTreeMap<String, String> = ron::from_str(text).ok()?;
    Some(map.into_iter().collect())
}

/// `ron::to_string` of a `BTreeMap` of texts. Claimed: the text depends on the
/// pairs alone, and pairs with ascending keys read back as they are.
#[verifier::external_body]
fn write_version_pairs(pairs: &Vec<(String, String)>) -> (r: Result<String, String>)
    ensures
        document::result_view(r) == version_text(pairs.deep_view()),
        r matches Ok(s) ==> textmap::ascending(pairs.deep_view()) ==> version_pairs(s@) == Some(
            pairs.deep_view(),
        ),
{
    let map: std::collections::BTreeMap<String, String> = pairs.iter().cloned().collect();
    ron::to_string(&map).map_err(|e| e.to_string())
}

/// The version map that a checkpoint holds, if it holds one.
pub open spec fn version_map(text: Seq<char>) -> Option<Map<Seq<char>, Seq<char>>> {
    match version_pairs(text) {
        Some(pairs) => Some(textmap::collected(pairs)),
        None => None,
    }
}

/// The version map that a checkpoint holds: what was last published of each file
/// of a folder. The checkpoint of a single file, a bare version, is none.
pub fn parse_version_map(text: &str) -> (r: Option<TextMap>)
    ensures
        (match r {
            Some(m) => Some(m@),
            None => None,
        }) == version_map(text@),
        bare_version(text@) ==> r is None,
{
    match read_version_pairs(text) {
        Some(pairs) => Some(TextMap::from_pairs(pairs)),
        None => None,
    }
}

/// A version map as a checkpoint. Read back, it is the same map.
pub fn serialize_version_map(map: &TextMap) -> (r: Result<String, String>)
    ensures
        exists|pairs: Seq<(Seq<char>, Seq<char>)>|
            textmap::ascending(pairs) && textmap::map_of(pairs) == map@ && document::result_view(r)
                == #[trigger] version_text(pairs),
        r matches Ok(s) ==> version_map(s@) == Some(map@),
{
    let pairs = map.pairs();
    let r = write_version_pairs(pairs);
    proof {
        textmap::lemma_collected(pairs.deep_view());
    }
    r
}

// A single file.

/// The place behind the last name in `s` before `end`: separators behind it, and
/// names that are `.`, do not count.
pub open spec fn name_end(s: Seq<char>, end: int) -> int
    decreases end,
{
    if end <= 0 || end > s.len() {
        end
    } else if s[end - 1] == '/' {
        name_end(s, end - 1)
    } else if s[end - 1] == '.' && (end == 1 || s[end - 2] == '/') {
        name_end(s, end - 1)
    } else {
        end
    }
}

/// The place where the name that ends before `end` begins.
pub open spec fn name_start(s: Seq<char>, end: int) -> int
    decreases end,
{
    if end <= 0 || end > s.len() || s[end - 1] == '/' {
        end
    } else {
        name_start(s, end - 1)
    }
}

/// The last name of a path. A path that ends in `..`, or has no names, has none
/// and stands for itself.
pub open spec fn base_name(s: Seq<char>) -> Seq<char> {
    let end = name_end(s, s.len() as int);
    let name = s.subrange(name_start(s, end), end);
    if name.len() == 0 || name == ".."@ {
        s
    } else {
        name
    }
}

fn file_name(s: &str) -> (r: String)
    ensures
        r@ == base_name(s@),
{
    let v = chars_of(s);
    let mut end: usize = v.len();
    while end > 0 && (v[end - 1] == '/' || (v[end - 1] == '.' && (end == 1 || v[end - 2] == '/')))
        invariant
            end <= v.len(),
            name_end(v@, v.len() as int) == name_end(v@, end as int),
        decreases end,
    {
        end -= 1;
    }
    let mut start: usize = end;
    while start > 0 && v[start - 1] != '/'
        invariant
            start <= end <= v.len(),
            name_start(v@, end as int) == name_start(v@, start as int),
        decreases start,
    {
        start -= 1;
    }
    let name = text_between(&v, start, end);
    if end == start || same_text(name.as_str(), "..") {
        s.to_string()
    } else {
        name
    }
}

/// The version that the provider gives a file, where it gives one.
pub open spec fn provider_version(item: DriveItemView) -> Option<Seq<char>> {
    match item.etag {
        Some(e) => Some(e),
        None => item.last_modified,
    }
}

fn version_of(item: &DriveItem) -> (r: Option<String>)
    ensures
        r.deep_view() == provider_version(item.deep_view()),
{
    match &item.etag {
        Some(e) => Some(e.clone()),
        None => item.last_modified.clone(),
    }
}

/// What to do next about a file.
pub enum FileStep {
    /// The run is over with this result.
    Done(FetchResult),
    /// Read the file at this address.
    Download(String),
    /// The run failed.
    Failed(String),
}

#[verifier::ext_equal]
pub enum FileStepView {
    Done(FetchResultView),
    Download(Seq<char>),
    Failed(Seq<char>),
}

impl DeepView for FileStep {
    type V = FileStepView;

    open spec fn deep_view(&self) -> FileStepView {
        match self {
            FileStep::Done(r) => FileStepView::Done(r.deep_view()),
            FileStep::Download(u) => FileStepView::Download(u@),
            FileStep::Failed(e) => FileStepView::Failed(e@),
        }
    }
}

/// A run without items.
pub open spec fn no_items(notes: Seq<char>, checkpoint: Option<Seq<char>>) -> FetchResultView {
    FetchResultView { items: Seq::empty(), notes, next_checkpoint: checkpoint }
}

/// What to do about a file before its content is known: nothing where its version
/// is the checkpoint or its size is over the cap, otherwise to read it.
pub open spec fn before_download(
    sp: SpConfigView,
    item: DriveItemView,
    checkpoint: Option<Seq<char>>,
) -> FileStepView {
    if provider_version(item) is Some && provider_version(item) == checkpoint {
        FileStepView::Done(
            no_items(
                "'"@ + item.name + "' unchanged (version "@ + checkpoint->Some_0 + ")"@,
                checkpoint,
            ),
        )
    } else if item.size is Some && item.size->Some_0 > sp.max_file_bytes {
        FileStepView::Done(
            no_items(
                "skipped '"@ + item.name + "' ("@ + text::decimal_text(item.size->Some_0 as nat)
                    + " bytes > "@ + text::decimal_text(sp.max_file_bytes as nat) + " cap)"@,
                checkpoint,
            ),
        )
    } else {
        match item.download_url {
            Some(u) => FileStepView::Download(u),
            None => FileStepView::Failed("no download URL on '"@ + item.name + "'"@),
        }
    }
}

fn empty_result(notes: String, checkpoint: Option<String>) -> (r: FetchResult)
    ensures
        r.deep_view() == no_items(notes@, checkpoint.deep_view()),
{
    let r = FetchResult { items: Vec::new(), notes, next_checkpoint: checkpoint };
    assert(r.items.deep_view() =~= Seq::<ItemView>::empty());
    r
}

/// What to do about a file before its content is known.
pub fn file_before_download(sp: &SpConfig, item: &DriveItem, checkpoint: &Option<String>) -> (r:
    FileStep)
    ensures
        r.deep_view() == before_download(
            sp.deep_view(),
            item.deep_view(),
            checkpoint.deep_view(),
        ),
{
    if let Some(v) = version_of(item) {
        if is_text(checkpoint, v.as_str()) {
            let notes = "'".to_string().concat(item.name.as_str()).concat(
                "' unchanged (version ",
            ).concat(v.as_str()).concat(")");
            return FileStep::Done(empty_result(notes, Some(v)));
        }
    }
    if let Some(size) = item.size {
        if size > sp.max_file_bytes {
            let notes = "skipped '".to_string().concat(item.name.as_str()).concat("' (").concat(
                decimal(size).as_str(),
            ).concat(" bytes > ").concat(decimal(sp.max_file_bytes).as_str()).concat(" cap)");
            return FileStep::Done(empty_result(notes, checkpoint.clone()));
        }
    }
    match &item.download_url {
        Some(u) => FileStep::Download(u.clone()),
        None => FileStep::Failed(
            "no download URL on '".to_string().concat(item.name.as_str()).concat("'"),
        ),
    }
}

/// What a file was last changed, as far as that is known.
pub open spec fn modified_text(last_modified: Option<Seq<char>>) -> Seq<char> {
    match last_modified {
        Some(t) => t,
        None => "?"@,
    }
}

/// `<name> · <size> bytes · modified <time>`.
pub open spec fn file_meta(name: Seq<char>, size: nat, last_modified: Option<Seq<char>>) -> Seq<
    char,
> {
    name + " · "@ + text::decimal_text(size) + " bytes · modified "@ + modified_text(last_modified)
}

pub(crate) fn meta_text(name: &str, size: usize, last_modified: &Option<String>) -> (r: String)
    ensures
        r@ == file_meta(name@, size as nat, last_modified.deep_view()),
{
    let modified = match last_modified {
        Some(t) => t.clone(),
        None => "?".to_string(),
    };
    name.to_string().concat(" · ").concat(decimal(size as u64).as_str()).concat(
        " bytes · modified ",
    ).concat(modified.as_str())
}

/// What a file of this size and digest comes to: nothing where the provider gives
/// no version and the digest is the checkpoint, otherwise one item. With it, the
/// name under which the bytes are to be kept.
pub open spec fn after_digest(
    sp: SpConfigView,
    item: DriveItemView,
    checkpoint: Option<Seq<char>>,
    size: nat,
    hash: Seq<char>,
) -> (FetchResultView, Option<Seq<char>>) {
    let name = base_name(item.name);
    if provider_version(item) is None && checkpoint == Some(hash) {
        (no_items("'"@ + item.name + "' unchanged (content hash match)"@, Some(hash)), None)
    } else {
        (
            FetchResultView {
                items: seq![
                    ItemView {
                        id: sp.url,
                        kind: sp.kind,
                        version: provider_version(item),
                        content_hash: hash,
                        files: seq![name],
                        file_hashes: Map::empty(),
                        locator: None,
                        meta: file_meta(name, size, item.last_modified),
                    },
                ],
                notes: "'"@ + name + "' new version snapshotted"@,
                next_checkpoint: Some(
                    match provider_version(item) {
                        Some(v) => v,
                        None => hash,
                    },
                ),
            },
            Some(name),
        )
    }
}

/// What a file that was read comes to.
pub open spec fn after_download(
    sp: SpConfigView,
    item: DriveItemView,
    checkpoint: Option<Seq<char>>,
    bytes: Seq<u8>,
) -> (FetchResultView, Option<Seq<char>>) {
    after_digest(sp, item, checkpoint, bytes.len(), digest::sha256_text(bytes))
}

/// What a file of this size and digest comes to, and the name under which its
/// bytes are to be kept.
pub fn file_after_digest(
    sp: &SpConfig,
    item: &DriveItem,
    checkpoint: &Option<String>,
    size: usize,
    hash: String,
) -> (r: (FetchResult, Option<String>))
    ensures
        (r.0.deep_view(), r.1.deep_view()) == after_digest(
            sp.deep_view(),
            item.deep_view(),
            checkpoint.deep_view(),
            size as nat,
            hash@,
        ),
{
    let version = version_of(item);
    if version.is_none() && is_text(checkpoint, hash.as_str()) {
        let notes = "'".to_string().concat(item.name.as_str()).concat(
            "' unchanged (content hash match)",
        );
        return (empty_result(notes, Some(hash)), None);
    }
    let ghost expected = after_digest(
        sp.deep_view(),
        item.deep_view(),
        checkpoint.deep_view(),
        size as nat,
        hash@,
    );
    let name = file_name(item.name.as_str());
    let next = match &version {
        Some(v) => v.clone(),
        None => hash.clone(),
    };
    let made = Item {
        id: sp.url.clone(),
        kind: sp.kind.clone(),
        version,
        content_hash: hash,
        files: one_text(name.as_str()),
        file_hashes: TextMap::new(),
        locator: None,
        meta: meta_text(name.as_str(), size, &item.last_modified),
    };
    let mut items: Vec<Item> = Vec::new();
    items.push(made);
    let result = FetchResult {
        items,
        notes: "'".to_string().concat(name.as_str()).concat("' new version snapshotted"),
        next_checkpoint: Some(next),
    };
    assert(result.items.deep_view() =~= expected.0.items);
    (result, Some(name))
}

/// What a file that was read comes to, and the name under which its bytes are to
/// be kept.
pub fn file_after_download(
    sp: &SpConfig,
    item: &DriveItem,
    checkpoint: &Option<String>,
    bytes: &[u8],
) -> (r: (FetchResult, Option<String>))
    ensures
        (r.0.deep_view(), r.1.deep_view()) == after_download(
            sp.deep_view(),
            item.deep_view(),
            checkpoint.deep_view(),
            bytes@,
        ),
{
    file_after_digest(sp, item, checkpoint, bytes.len(), sha256_hex(bytes))
}

/// A file is published once per version: after a run that published it, a run that
/// finds the same version, or without versions the same content, brings nothing
/// and keeps the checkpoint.
pub proof fn law_a_file_is_published_once_per_version(
    sp: SpConfigView,
    item: DriveItemView,
    checkpoint: Option<Seq<char>>,
    bytes: Seq<u8>,
)
    ensures
        ({
            let next = after_download(sp, item, checkpoint, bytes).0.next_checkpoint;
            if provider_version(item) is Some {
                before_download(sp, item, next) matches FileStepView::Done(r) && r.items.len() == 0
                    && r.next_checkpoint == next
            } else {
                after_download(sp, item, next, bytes).0.items.len() == 0 && after_download(
                    sp,
                    item,
                    next,
                    bytes,
                ).0.next_checkpoint == next && after_download(sp, item, next, bytes).1 is None
            }
        }),
{
}

/// A file is not read exactly where its version, the provider's or else its last change,
/// is the checkpoint, or where it is said to be larger than the cap; then nothing is
/// published and the checkpoint stays as it was. Any other file is read at its own
/// address, and fails the run where it has none.
pub proof fn law_which_file_is_read(
    sp: SpConfigView,
    item: DriveItemView,
    checkpoint: Option<Seq<char>>,
)
    ensures
        ({
            let version = match item.etag {
                Some(e) => Some(e),
                None => item.last_modified,
            };
            let known = version is Some && checkpoint == version;
            let large = item.size is Some && item.size->Some_0 > sp.max_file_bytes;
            let step = before_download(sp, item, checkpoint);
            &&& step is Done <==> known || large
            &&& step matches FileStepView::Done(r) ==> r.items.len() == 0 && r.next_checkpoint
                == checkpoint
            &&& step is Failed <==> !known && !large && item.download_url is None
            &&& step matches FileStepView::Download(url) ==> item.download_url == Some(url)
            &&& known ==> (step matches FileStepView::Done(r) && text::holds(
                r.notes,
                "' unchanged (version "@ + version->Some_0 + ")"@,
            ))
            &&& large && !known ==> (step matches FileStepView::Done(r) && text::starts_with(
                r.notes,
                "skipped '"@ + item.name + "' ("@,
            ))
        }),
{
    let version = match item.etag {
        Some(e) => Some(e),
        None => item.last_modified,
    };
    if version is Some && checkpoint == version {
        let part = "' unchanged (version "@ + version->Some_0 + ")"@;
        let s = "'"@ + item.name + "' unchanged (version "@ + version->Some_0 + ")"@;
        let front = "'"@ + item.name;
        assert(s =~= front + part);
        assert(s.subrange(front.len() as int, front.len() as int + part.len()) =~= part);
    }
    if item.size is Some {
        let head = "skipped '"@ + item.name + "' ("@;
        let s = "skipped '"@ + item.name + "' ("@ + text::decimal_text(item.size->Some_0 as nat)
            + " bytes > "@ + text::decimal_text(sp.max_file_bytes as nat) + " cap)"@;
        assert(s.take(head.len() as int) =~= head);
    }
}

/// A file that was read is one item, unless it has no version and its digest is the
/// checkpoint: then nothing is published. The item is known by the sharing link, holds
/// the digest of the content and the last name of the file, under which its bytes are
/// kept; the next checkpoint is the version, or without one the digest.
pub proof fn law_a_read_file_is_published(
    sp: SpConfigView,
    item: DriveItemView,
    checkpoint: Option<Seq<char>>,
    bytes: Seq<u8>,
)
    ensures
        ({
            let version = match item.etag {
                Some(e) => Some(e),
                None => item.last_modified,
            };
            let hash = digest::sha256_text(bytes);
            let (r, kept) = after_download(sp, item, checkpoint, bytes);
            let same = version is None && checkpoint == Some(hash);
            &&& r.items.len() == if same {
                0int
            } else {
                1int
            }
            &&& kept == if same {
                None
            } else {
                Some(base_name(item.name))
            }
            &&& r.next_checkpoint == match version {
                Some(v) => Some(v),
                None => Some(hash),
            }
            &&& !same ==> {
                let made = r.items[0];
                &&& made.id == sp.url
                &&& made.kind == sp.kind
                &&& made.version == version
                &&& made.content_hash == hash
                &&& made.files == seq![base_name(item.name)]
                &&& made.file_hashes == Map::<Seq<char>, Seq<char>>::empty()
                &&& made.locator is None
                &&& made.meta == file_meta(base_name(item.name), bytes.len(), item.last_modified)
            }
        }),
{
}

/// What is said of a file: its name, then its size in bytes, then when it was last
/// changed, or `?` where that is not known.
pub proof fn law_what_is_said_of_a_file(name: Seq<char>, size: nat, t: Seq<char>)
    ensures
        file_meta(name, size, Some(t)) == file_meta(name, size, None).drop_last() + t,
        file_meta(name, size, None) == name + " · "@ + text::decimal_text(size)
            + " bytes · modified ?"@,
{
    reveal_strlit("?");
    reveal_strlit(" bytes · modified ");
    reveal_strlit(" bytes · modified ?");
    let front = name + " · "@ + text::decimal_text(size);
    assert(file_meta(name, size, None) =~= front + " bytes · modified ?"@);
    assert(file_meta(name, size, Some(t)) =~= file_meta(name, size, None).drop_last() + t);
}

proof fn lemma_name_start(s: Seq<char>, end: int, at: int)
    requires
        0 <= at <= end <= s.len(),
        at > 0 ==> s[at - 1] == '/',
        forall|i: int| at <= i < end ==> s[i] != '/',
    ensures
        name_start(s, end) == at,
    decreases end,
{
    if at < end {
        lemma_name_start(s, end - 1, at);
    }
}

/// The last name of a path is what stands behind its last `/`, whatever stands before
/// it, and a `/` behind the name does not matter.
pub proof fn law_a_base_name_is_the_last_name(front: Seq<char>, name: Seq<char>)
    requires
        name.len() > 0,
        !name.contains('/'),
        name != "."@,
        name != ".."@,
    ensures
        base_name(name) == name,
        base_name(front + seq!['/'] + name) == name,
        base_name(name + seq!['/']) == name,
        base_name(front + seq!['/'] + name + seq!['/']) == name,
{
    reveal_strlit(".");
    reveal_strlit("..");
    let n = name.len() as int;
    let f = front.len() as int + 1;
    assert(!(n == 1 && name[0] == '.')) by {
        if n == 1 && name[0] == '.' {
            assert(name =~= "."@);
        }
    }
    assert forall|i: int| 0 <= i < n implies name[i] != '/' by {}
    assert(name_end(name, n) == n);
    lemma_name_start(name, n, 0);
    assert(name.subrange(0, n) =~= name);
    let a = front + seq!['/'] + name;
    assert(a[f - 1] == '/');
    assert forall|i: int| f <= i < f + n implies a[i] != '/' by {
        assert(a[i] == name[i - f]);
    }
    assert(a[f + n - 1] == name[n - 1]);
    if n > 1 {
        assert(a[f + n - 2] == name[n - 2]);
    }
    assert(name_end(a, f + n) == f + n);
    lemma_name_start(a, f + n, f);
    assert(a.subrange(f, f + n) =~= name);
    let b = name + seq!['/'];
    assert(b[n - 1] == name[n - 1]);
    if n > 1 {
        assert(b[n - 2] == name[n - 2]);
    }
    assert(name_end(b, n) == n);
    assert(name_end(b, n + 1) == n);
    lemma_name_start(b, n, 0);
    assert(b.subrange(0, n) =~= name);
    let c = a + seq!['/'];
    assert(c[f + n - 1] == name[n - 1]);
    if n > 1 {
        assert(c[f + n - 2] == name[n - 2]);
    } else {
        assert(c[f - 1] == '/');
    }
    assert(name_end(c, f + n) == f + n);
    assert(name_end(c, f + n + 1) == f + n);
    assert forall|i: int| f <= i < f + n implies c[i] != '/' by {
        assert(c[i] == name[i - f]);
    }
    lemma_name_start(c, f + n, f);
    assert(c.subrange(f, f + n) =~= name);
}

/// A configuration is good exactly where all of its patterns compile and its kind is a
/// bare token; where both are at fault, the pattern is named.
pub proof fn law_which_configurations_are_good(
    c: SpConfigView,
    bad: Option<(Seq<char>, Seq<char>)>,
)
    ensures
        fault(c, bad) is None <==> bad is None && c.kind.len() > 0 && forall|i: int|
            0 <= i < c.kind.len() ==> (text::ascii_alphanumeric(#[trigger] c.kind[i]) || c.kind[i]
                == '-'),
        bad matches Some((p, e)) ==> fault(c, bad) == Some(
            "pattern"@ + " '"@ + p + "': "@ + e,
        ),
{
}

// Downloads.

/// A download in progress, under a cap that it never exceeds.
pub struct Download {
    label: String,
    cap: u64,
    bytes: Vec<u8>,
}

#[verifier::ext_equal]
pub struct DownloadView {
    pub label: Seq<char>,
    pub cap: u64,
    pub bytes: Seq<u8>,
}

impl View for Download {
    type V = DownloadView;

    closed spec fn view(&self) -> DownloadView {
        DownloadView { label: self.label@, cap: self.cap, bytes: self.bytes@ }
    }
}

impl DownloadView {
    /// After a further piece, nothing where that would go over the cap.
    pub open spec fn with_piece(self, piece: Seq<u8>) -> Option<DownloadView> {
        if self.bytes.len() + piece.len() <= self.cap {
            Some(DownloadView { bytes: self.bytes + piece, ..self })
        } else {
            None
        }
    }
}

/// A download is its pieces in their order, and is refused exactly where they come to more
/// than the cap together: two pieces are as good as one that is both.
pub proof fn law_a_download_is_its_pieces(d: DownloadView, a: Seq<u8>, b: Seq<u8>)
    ensures
        d.with_piece(a + b) == match d.with_piece(a) {
            Some(e) => e.with_piece(b),
            None => None,
        },
        d.with_piece(a) is Some <==> d.bytes.len() + a.len() <= d.cap,
        d.with_piece(a) matches Some(e) ==> e.bytes == d.bytes + a && e.cap == d.cap && e.label
            == d.label,
{
    assert(d.bytes + (a + b) =~= d.bytes + a + b);
}

impl Download {
    #[verifier::type_invariant]
    spec fn well_formed(self) -> bool {
        self.bytes@.len() <= self.cap
    }

    /// A download that has brought nothing yet.
    pub fn begin(label: &str, cap: u64) -> (d: Download)
        ensures
            d@ == (DownloadView { label: label@, cap, bytes: Seq::empty() }),
    {
        let d = Download { label: label.to_string(), cap, bytes: Vec::new() };
        assert(d.bytes@ =~= Seq::empty());
        d
    }

    /// What a refused download is reported as.
    pub fn refusal(label: &str, status: &str) -> (r: String)
        ensures
            r@ == "download failed (HTTP "@ + status@ + ") for '"@ + label@ + "'"@,
    {
        "download failed (HTTP ".to_string().concat(status).concat(") for '").concat(label).concat(
            "'",
        )
    }

    /// Takes a further piece, unless it would go over the cap: what the provider
    /// says of a size may be too small.
    pub fn chunk(self, piece: &[u8]) -> (r: Result<Download, String>)
        ensures
            match r {
                Ok(d) => self@.bytes.len() + piece@.len() <= self@.cap && d@ == (DownloadView {
                    bytes: self@.bytes + piece@,
                    ..self@
                }),
                Err(e) => self@.bytes.len() + piece@.len() > self@.cap && e@ == "'"@ + self@.label
                    + "' exceeds the "@ + text::decimal_text(self@.cap as nat)
                    + "-byte cap mid-download — refusing to buffer"@,
            },
            (match r {
                Ok(d) => Some(d@),
                Err(_) => None,
            }) == self@.with_piece(piece@),
    {
        proof {
            use_type_invariant(&self);
        }
        if piece.len() as u64 > self.cap - self.bytes.len() as u64 {
            return Err(
                "'".to_string().concat(self.label.as_str()).concat("' exceeds the ").concat(
                    decimal(self.cap).as_str(),
                ).concat("-byte cap mid-download — refusing to buffer"),
            );
        }
        let mut bytes = self.bytes;
        let ghost before = bytes@;
        bytes.extend_from_slice(piece);
        assert(bytes@ =~= before + piece@);
        Ok(Download { label: self.label, cap: self.cap, bytes })
    }

    /// All that the download brought, within the cap.
    pub fn finish(self) -> (r: Vec<u8>)
        ensures
            r@ == self@.bytes,
            r@.len() <= self@.cap,
    {
        proof {
            use_type_invariant(&self);
        }
        self.bytes
    }
}

/// Where a source stands whose token is kept in a file, by whether the file is
/// there.
pub open spec fn token_status(cached: bool) -> AuthStatusView {
    if cached {
        AuthStatusView::Authenticated("token cached (verified on fetch)"@)
    } else {
        AuthStatusView::NotAuthenticated("no token — run `kindred source auth <name>`"@)
    }
}

impl SharepointFilePlugin {
    /// How the source presents itself.
    pub fn describe(&self) -> (d: Describe)
        ensures
            d.deep_view() == (DescribeView {
                name: "sharepoint-file"@,
                link_namespace: "sharepoint"@,
                fetch_style: FetchStyle::Snapshot,
                auth_realm: Some("ms-graph"@),
                protocol: plugin::PROTOCOL,
            }),
    {
        Describe {
            name: "sharepoint-file".to_string(),
            link_namespace: "sharepoint".to_string(),
            fetch_style: FetchStyle::Snapshot,
            auth_realm: Some("ms-graph".to_string()),
            protocol: plugin::PROTOCOL,
        }
    }

    /// Refuses a configuration that cannot be fetched with.
    pub fn validate_config(&self, config: &str) -> (r: Result<(), String>)
        ensures
            plugin::outcome(r) == (match config_of(config@) {
                Err(e) => Err(e),
                Ok(c) => match config_error(c) {
                    Some(e) => Err(e),
                    None => Ok(()),
                },
            }),
            document::tells_unknown_in(config_shape(), config@, document::refusal(r)),
    {
        match parse_config(config) {
            Err(e) => Err(e),
            Ok(c) => match find_fault(&c, &find_bad(&c.patterns)) {
                Some(e) => Err(e),
                None => Ok(()),
            },
        }
    }

    /// The realm in which a source of this configuration signs in.
    pub fn config_auth_realm(&self, config: &str) -> (r: Result<String, String>)
        ensures
            document::result_view(r) == (match config_of(config@) {
                Err(e) => Err(e),
                Ok(c) => Ok(config::realm_of(c.tenant, c.client_id)),
            }),
    {
        match parse_config(config) {
            Err(e) => Err(e),
            Ok(c) => Ok(auth_realm(c.tenant.as_str(), c.client_id.as_str())),
        }
    }

    /// Where the source stands, by whether a token is cached.
    pub fn auth_status(&self, cached: bool) -> (r: AuthStatus)
        ensures
            r.deep_view() == token_status(cached),
    {
        if cached {
            AuthStatus::Authenticated("token cached (verified on fetch)".to_string())
        } else {
            AuthStatus::NotAuthenticated(
                "no token — run `kindred source auth <name>`".to_string(),
            )
        }
    }

    /// The configuration to take a snapshot with, where one is asked for.
    pub fn plan(&self, spec: &RunSpec, config: &str) -> (r: Result<SpConfig, String>)
        ensures
            config_result(r) == if *spec is Snapshot {
                config_of(config@)
            } else {
                Err("sharepoint-file is a snapshot source"@)
            },
    {
        match spec {
            RunSpec::Snapshot => parse_config(config),
            _ => Err("sharepoint-file is a snapshot source".to_string()),
        }
    }

    /// What a sharing link that does not resolve is reported as.
    pub fn share_failure(&self, denied: bool) -> (r: String)
        ensures
            r@ == if denied {
                "share link access DENIED (Graph 403) — confirm you can open it and that Files.Read.All / Sites.Read.All are granted; this run is not complete"@
            } else {
                "share link not found (Graph 404) — the document may have been moved or deleted"@
            },
    {
        if denied {
            "share link access DENIED (Graph 403) — confirm you can open it and that Files.Read.All / Sites.Read.All are granted; this run is not complete".to_string()
        } else {
            "share link not found (Graph 404) — the document may have been moved or deleted".to_string()
        }
    }
}

/// A configuration says what the entries of its own names say, each field on its own, and
/// has the documented default where an entry is left out; without names the entries go by
/// place.
pub proof fn law_a_configuration_says_what_its_entries_say(
    entries: Seq<(document::ReadingView, document::ReadingView)>,
    list: Seq<document::ReadingView>,
)
    requires
        document::named(entries),
    ensures
        config_in(DocumentView::Table(entries)) matches Ok(c) ==> {
            &&& c.url == match document::given(entries, "url"@) {
                Some(r) => r.text->Ok_0,
                None => Seq::<char>::empty(),
            }
            &&& c.client_id == match document::given(entries, "client_id"@) {
                Some(r) => r.text->Ok_0,
                None => DEFAULT_CLIENT_ID@,
            }
            &&& c.tenant == match document::given(entries, "tenant"@) {
                Some(r) => r.text->Ok_0,
                None => DEFAULT_TENANT@,
            }
            &&& c.patterns == match document::given(entries, "patterns"@) {
                Some(r) => r.texts->Ok_0,
                None => seq!["**/*"@],
            }
            &&& c.kind == match document::given(entries, "kind"@) {
                Some(r) => r.text->Ok_0,
                None => "file"@,
            }
            &&& c.max_file_bytes == match document::given(entries, "max_file_bytes"@) {
                Some(r) => r.number->Ok_0,
                None => 67108864,
            }
        },
        config_in(DocumentView::List(list)) matches Ok(c) ==> {
            &&& c.url == if list.len() > 0 {
                list[0].text->Ok_0
            } else {
                Seq::<char>::empty()
            }
            &&& c.client_id == if list.len() > 1 {
                list[1].text->Ok_0
            } else {
                DEFAULT_CLIENT_ID@
            }
            &&& c.tenant == if list.len() > 2 {
                list[2].text->Ok_0
            } else {
                DEFAULT_TENANT@
            }
            &&& c.patterns == if list.len() > 3 {
                list[3].texts->Ok_0
            } else {
                seq!["**/*"@]
            }
            &&& c.kind == if list.len() > 4 {
                list[4].text->Ok_0
            } else {
                "file"@
            }
            &&& c.max_file_bytes == if list.len() > 5 {
                list[5].number->Ok_0
            } else {
                67108864
            }
        },
        config_in(DocumentView::Table(entries)) is Ok ==> document::given(entries, "url"@) is Some,
{
    let shape = config_shape();
    reveal_strlit("url");
    reveal_strlit("client_id");
    reveal_strlit("tenant");
    reveal_strlit("patterns");
    reveal_strlit("kind");
    reveal_strlit("max_file_bytes");
    assert(shape.names[0] == "url"@);
    assert(shape.names[1] == "client_id"@);
    assert(shape.names[2] == "tenant"@);
    assert(shape.names[3] == "patterns"@);
    assert(shape.names[4] == "kind"@);
    assert(shape.names[5] == "max_file_bytes"@);
    assert(shape.names.len() == 6);
    assert(shape.names[0].len() == 3);
    assert(shape.names[1].len() == 9);
    assert(shape.names[2].len() == 6);
    assert(shape.names[3].len() == 8);
    assert(shape.names[4].len() == 4);
    assert(shape.names[5].len() == 14);
    assert forall|i: int, j: int| 0 <= i < j < 6 implies #[trigger] shape.names[i]
        != #[trigger] shape.names[j] by {
        assert(shape.names[i].len() != shape.names[j].len() || shape.names[i][0] != shape.names[j][0]);
    }
    assert(shape.names.no_duplicates());
    if config_in(DocumentView::Table(entries)) is Ok {
        document::law_a_field_holds_what_its_name_gives(shape, entries, 0);
        document::law_a_field_holds_what_its_name_gives(shape, entries, 1);
        document::law_a_field_holds_what_its_name_gives(shape, entries, 2);
        document::law_a_field_holds_what_its_name_gives(shape, entries, 3);
        document::law_a_field_holds_what_its_name_gives(shape, entries, 4);
        document::law_a_field_holds_what_its_name_gives(shape, entries, 5);
    }
    if config_in(DocumentView::List(list)) is Ok {
        document::law_entries_without_names_go_by_place(shape, list, 0);
        document::law_entries_without_names_go_by_place(shape, list, 1);
        document::law_entries_without_names_go_by_place(shape, list, 2);
        document::law_entries_without_names_go_by_place(shape, list, 3);
        document::law_entries_without_names_go_by_place(shape, list, 4);
        document::law_entries_without_names_go_by_place(shape, list, 5);
    }
}

/// What is stated of a configuration is stated of its own fields.
pub proof fn law_a_configuration_is_its_fields(c: SpConfig)
    ensures
        c.deep_view().url == c.url@,
        c.deep_view().client_id == c.client_id@,
        c.deep_view().tenant == c.tenant@,
        c.deep_view().kind == c.kind@,
        c.deep_view().patterns == c.patterns.deep_view(),
        c.deep_view().max_file_bytes == c.max_file_bytes,
{
}

/// A path that ends in `..` has no last name and stands for itself, and one that ends in
/// `.` has the name before it.
pub proof fn law_dots_are_no_names(front: Seq<char>, name: Seq<char>)
    requires
        name.len() > 0,
        !name.contains('/'),
        name != "."@,
        name != ".."@,
    ensures
        base_name(front + seq!['/', '.', '.']) == front + seq!['/', '.', '.'],
        base_name(seq!['.', '.']) == seq!['.', '.'],
        base_name(name + seq!['/', '.']) == name,
        base_name(Seq::empty()) == Seq::<char>::empty(),
{
    reveal_strlit(".");
    reveal_strlit("..");
    let f = front.len() as int;
    let a = front + seq!['/', '.', '.'];
    assert(a[f] == '/' && a[f + 1] == '.' && a[f + 2] == '.');
    assert(name_end(a, f + 3) == f + 3);
    lemma_name_start(a, f + 3, f + 1);
    assert(a.subrange(f + 1, f + 3) =~= ".."@);
    let b = seq!['.', '.'];
    assert(name_end(b, 2) == 2);
    lemma_name_start(b, 2, 0);
    assert(b.subrange(0, 2) =~= ".."@);
    let n = name.len() as int;
    let c = name + seq!['/', '.'];
    assert(c[n] == '/' && c[n + 1] == '.');
    assert(c[n - 1] == name[n - 1]);
    if n > 1 {
        assert(c[n - 2] == name[n - 2]);
    } else if name[0] == '.' {
        assert(name =~= "."@);
    }
    assert(name_end(c, n) == n);
    assert(name_end(c, n + 1) == n);
    assert(name_end(c, n + 2) == n);
    assert forall|i: int| 0 <= i < n implies c[i] != '/' by {
        assert(c[i] == name[i]);
    }
    lemma_name_start(c, n, 0);
    assert(c.subrange(0, n) =~= name);
    let none = Seq::<char>::empty();
    assert(none.subrange(0, 0) =~= none);
}

} // verus!
