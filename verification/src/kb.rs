//! `kb`: another knowledge base's git repository as a source.
//!
//! Each record file and each accept receipt of the remote becomes a hashed
//! evidence item. The remote `registry.ron` rides along as an item of its own,
//! so that whoever curates can read the remote vocabulary; it also tells the
//! kind, the identity and the title of the records.

use vstd::prelude::*;
use crate::digest;
use crate::digest::file_item;
use crate::document;
use crate::document::{
    read_document, read_strings, shape_config, take_text, take_texts, two_texts, Document,
    DocumentView, Kind, Shape, ShapeView, StringEntry,
};
use crate::lists::filtered;
use crate::patterns;
use crate::patterns::{find_bad, is_selected, refuse, Matching};
use crate::plugin;
use crate::plugin::{
    describe_source, AuthStatus, AuthStatusView, Describe, DescribeView, FetchResult,
    FetchResultView, FetchStyle, Item, ItemView, RunSpec,
};
use crate::text;
use crate::text::{
    chars_of, find_char, has_char, has_prefix, has_suffix, is_text, join, safe_token, skip_chars,
    text_between, text_from_utf8, text_of, trim,
};
use crate::tree;
use crate::tree::{in_reading_order, Gathering, GatheringView};

verus! {

/// The source that federates another knowledge base.
pub struct KbPlugin;

/// The configuration of one such source.
#[derive(Debug, PartialEq, Eq)]
pub struct Config {
    /// Git URL or local path of the remote repository.
    pub url: String,
    /// Branch or tag to read, `main` by default.
    pub git_ref: String,
    /// Paths swept as evidence, relative to the remote root.
    pub include_paths: Vec<String>,
}

#[verifier::ext_equal]
pub struct ConfigView {
    pub url: Seq<char>,
    pub git_ref: Seq<char>,
    pub include_paths: Seq<Seq<char>>,
}

impl DeepView for Config {
    type V = ConfigView;

    open spec fn deep_view(&self) -> ConfigView {
        ConfigView {
            url: self.url@,
            git_ref: self.git_ref@,
            include_paths: self.include_paths.deep_view(),
        }
    }
}

/// The fields of the configuration.
pub open spec fn config_shape() -> ShapeView {
    ShapeView {
        title: "Config"@,
        names: seq!["url"@, "git_ref"@, "include"@],
        kinds: seq![Kind::Text, Kind::Text, Kind::Texts],
        required: 1,
    }
}

/// What a parsed configuration means.
pub open spec fn config_in(parsed: DocumentView) -> Result<ConfigView, Seq<char>> {
    match document::shaped(
        parsed,
        config_shape(),
        "kb config shape (url, git_ref, include): "@,
    ) {
        Err(e) => Err(e),
        Ok(slots) => Ok(
            ConfigView {
                url: document::text_or(slots, 0, Seq::empty()),
                git_ref: document::text_or(slots, 1, "main"@),
                include_paths: document::texts_or(slots, 2, seq!["facts/**"@, "receipts/**"@]),
            },
        ),
    }
}

/// What a configuration text means.
pub open spec fn config_of(text: Seq<char>) -> Result<ConfigView, Seq<char>> {
    match document::document_of(text) {
        Err(e) => Err("kb config: "@ + e),
        Ok(parsed) => config_in(parsed),
    }
}

pub open spec fn config_result(r: Result<Config, String>) -> Result<ConfigView, Seq<char>> {
    match r {
        Ok(c) => Ok(c.deep_view()),
        Err(e) => Err(e@),
    }
}

/// The configuration that a parsed one is.
pub fn config_from(parsed: &Document) -> (r: Result<Config, String>)
    ensures
        config_result(r) == config_in(parsed.deep_view()),
        document::tells_unknown(config_shape(), parsed.deep_view(), document::refusal(r)),
{
    let mut kinds: Vec<Kind> = Vec::new();
    kinds.push(Kind::Text);
    kinds.push(Kind::Text);
    kinds.push(Kind::Texts);
    let shape = Shape {
        title: "Config",
        names: &["url", "git_ref", "include"],
        kinds,
        required: 1,
    };
    assert(shape.names.deep_view() =~= config_shape().names);
    assert(shape.kinds@ =~= config_shape().kinds);
    match shape_config(
        parsed,
        &shape,
        "kb config shape (url, git_ref, include): ",
    ) {
        Err(e) => Err(e),
        Ok(slots) => {
            let empty = String::new();
            assert(empty@ =~= Seq::<char>::empty());
            Ok(
                Config {
                    url: take_text(&slots, 0, empty.as_str()),
                    git_ref: take_text(&slots, 1, "main"),
                    include_paths: take_texts(&slots, 2, two_texts("facts/**", "receipts/**")),
                },
            )
        },
    }
}

/// Reads a configuration. Unknown keys are errors.
pub fn parse_config(text: &str) -> (r: Result<Config, String>)
    ensures
        config_result(r) == config_of(text@),
        document::tells_unknown_in(config_shape(), text@, document::refusal(r)),
{
    match read_document(text) {
        Err(e) => Err("kb config: ".to_string().concat(e.as_str())),
        Ok(parsed) => config_from(&parsed),
    }
}

/// What is wrong with a configuration, if anything, given the first of its included
/// paths that does not compile.
pub open spec fn fault(c: ConfigView, bad: Option<(Seq<char>, Seq<char>)>) -> Option<Seq<char>> {
    if !text::single_token(c.url) {
        Some("url must be a single non-empty token"@)
    } else if !text::single_token(c.git_ref) {
        Some("git_ref must be a bare branch/tag name"@)
    } else {
        patterns::refusal("include"@, bad)
    }
}

/// What is wrong with a configuration, if anything.
pub open spec fn config_error(c: ConfigView) -> Option<Seq<char>> {
    fault(c, patterns::bad_pattern(c.include_paths))
}

/// What is wrong with a configuration, given the first of its included paths that
/// does not compile.
pub fn find_fault(c: &Config, bad: &Option<(String, String)>) -> (r: Option<String>)
    ensures
        r.deep_view() == fault(c.deep_view(), bad.deep_view()),
{
    if !safe_token(c.url.as_str()) {
        return Some("url must be a single non-empty token".to_string());
    }
    if !safe_token(c.git_ref.as_str()) {
        return Some("git_ref must be a bare branch/tag name".to_string());
    }
    refuse("include", bad)
}

// The remote vocabulary.

/// A record kind of the remote: its name, where its records are stored, and
/// the field that titles them.
pub struct RemoteKind {
    pub name: String,
    pub storage: String,
    pub title: Option<String>,
}

#[verifier::ext_equal]
pub struct RemoteKindView {
    pub name: Seq<char>,
    pub storage: Seq<char>,
    pub title: Option<Seq<char>>,
}

impl DeepView for RemoteKind {
    type V = RemoteKindView;

    open spec fn deep_view(&self) -> RemoteKindView {
        RemoteKindView {
            name: self.name@,
            storage: self.storage@,
            title: self.title.deep_view(),
        }
    }
}

/// The record kinds that a registry declares, nothing where the text is no
/// registry.
pub uninterp spec fn registry_of(text: Seq<char>) -> Option<Seq<RemoteKindView>>;

/// `ron::from_str` into `kindred_core::registry::Registry`, its kinds in order,
/// each with the field that `Registry::affordance_field` names as its title.
/// Claimed: the result is a function of the text alone.
#[verifier::external_body]
fn read_registry(text: &str) -> (r: Option<Vec<RemoteKind>>)
    ensures
        r.deep_view() == registry_of(text@),
{
    let registry: kindred_core::registry::Registry = ron::from_str(text).ok()?;
    let role = kindred_core::registry::Affordance::Title;
    let kind = |k: &kindred_core::registry::Kind| RemoteKind {
        name: k.name.clone(),
        storage: k.storage.clone(),
        title: registry.affordance_field(k, role).map(|f| f.name.clone()),
    };
    Some(registry.kinds.iter().map(kind).collect())
}

/// Characters with a meaning of their own in a regular expression.
pub open spec fn regex_meta(c: char) -> bool {
    c == '\\' || c == '.' || c == '+' || c == '*' || c == '?' || c == '(' || c == ')' || c == '|'
        || c == '[' || c == ']' || c == '{' || c == '}' || c == '^' || c == '$' || c == '#' || c
        == '&' || c == '-' || c == '~'
}

/// A text with a `\` before each character that has a meaning of its own in a
/// regular expression.
pub open spec fn regex_escaped(s: Seq<char>) -> Seq<char>
    decreases s.len(),
{
    if s.len() == 0 {
        s
    } else if regex_meta(s.last()) {
        regex_escaped(s.drop_last()).push('\\').push(s.last())
    } else {
        regex_escaped(s.drop_last()).push(s.last())
    }
}

/// `regex_lite::escape`: a `\` before each of the characters that
/// [`regex_meta`] lists, nothing else changed.
#[verifier::external_body]
fn escape(s: &str) -> (r: String)
    ensures
        r@ == regex_escaped(s@),
{
    regex_lite::escape(s)
}

/// A storage path as a regular expression, from a place outside braces on: a
/// group for every `{placeholder}`, everything else literally.
pub open spec fn storage_body(rest: Seq<char>) -> Seq<char>
    decreases rest.len(),
    via storage_body_shrinks
{
    let open = text::index_of(rest, '{', 0);
    if open >= rest.len() {
        regex_escaped(rest)
    } else {
        let close = text::index_of(rest, '}', open);
        regex_escaped(rest.take(open)) + "([^/]+)"@ + storage_body(
            text::without_chars(rest, close + 1),
        )
    }
}

#[via_fn]
proof fn storage_body_shrinks(rest: Seq<char>) {
    text::lemma_index_of(rest, '{', 0);
    text::lemma_index_of(rest, '}', text::index_of(rest, '{', 0));
}

/// `facts/people/{id}.ron` as an anchored regular expression with one group per
/// placeholder.
pub open spec fn storage_pattern(storage: Seq<char>) -> Seq<char> {
    "^"@ + storage_body(storage) + "$"@
}

/// `facts/people/{id}.ron` as an anchored regular expression with one group per
/// placeholder.
pub fn storage_regex(storage: &str) -> (r: String)
    ensures
        r@ == storage_pattern(storage@),
{
    let mut pattern = "^".to_string();
    let mut rest = chars_of(storage);
    let mut open = find_char(&rest, '{', 0);
    while open < rest.len()
        invariant
            open == text::index_of(rest@, '{', 0),
            open <= rest.len(),
            pattern@ + storage_body(rest@) == "^"@ + storage_body(storage@),
        decreases rest.len(),
    {
        let literal = text_between(&rest, 0, open);
        assert(literal@ =~= rest@.take(open as int));
        let close = find_char(&rest, '}', open);
        let from = if close < rest.len() {
            close + 1
        } else {
            close
        };
        let tail = text_between(&rest, from, rest.len());
        assert(tail@ =~= text::without_chars(rest@, close + 1));
        let ghost before = pattern@;
        pattern = pattern.concat(escape(literal.as_str()).as_str()).concat("([^/]+)");
        assert(pattern@ + storage_body(tail@) =~= before + storage_body(rest@));
        rest = chars_of(tail.as_str());
        open = find_char(&rest, '{', 0);
    }
    pattern.concat(escape(text_of(&rest).as_str()).as_str()).concat("$")
}

/// What the `regex_lite` crate says against an expression, nothing where it
/// takes it.
pub uninterp spec fn regex_error(pattern: Seq<char>) -> Option<Seq<char>>;

/// `regex_lite::Regex::new`, by its error. Claimed: whether an expression is
/// taken, and the message where it is not, depend on the expression alone.
#[verifier::external_body]
fn regex_complaint(pattern: &str) -> (r: Option<String>)
    ensures
        r.deep_view() == regex_error(pattern@),
{
    regex_lite::Regex::new(pattern).err().map(|e| e.to_string())
}

/// The groups of the leftmost match of an expression in a text, the whole match
/// first; nothing where there is no match.
pub uninterp spec fn regex_groups(pattern: Seq<char>, text: Seq<char>) -> Option<
    Seq<Option<Seq<char>>>,
>;

/// `regex_lite::Regex::captures` on the compiled expression, its groups as
/// text. Claimed: the groups depend on the expression and the text alone, an
/// expression that does not compile has none, and a match has at least the group
/// of the whole.
#[verifier::external_body]
fn captures(pattern: &str, text: &str) -> (r: Option<Vec<Option<String>>>)
    ensures
        r.deep_view() == regex_groups(pattern@, text@),
        regex_error(pattern@) is Some ==> r is None,
        r matches Some(groups) ==> groups@.len() >= 1,
{
    let regex = regex_lite::Regex::new(pattern).ok()?;
    let groups = regex.captures(text)?;
    Some(groups.iter().map(|g| g.map(|m| m.as_str().to_string())).collect())
}

/// How the records of one kind are told from their paths.
pub struct Route {
    pub kind: String,
    /// A regular expression over the path, one group per part of the identity.
    pub pattern: String,
    /// The field that titles a record.
    pub title: Option<String>,
}

#[verifier::ext_equal]
pub struct RouteView {
    pub kind: Seq<char>,
    pub pattern: Seq<char>,
    pub title: Option<Seq<char>>,
}

impl DeepView for Route {
    type V = RouteView;

    open spec fn deep_view(&self) -> RouteView {
        RouteView { kind: self.kind@, pattern: self.pattern@, title: self.title.deep_view() }
    }
}

/// The route of a kind whose storage path has a placeholder.
pub open spec fn route_of(kind: RemoteKindView) -> RouteView {
    RouteView {
        kind: kind.name,
        pattern: storage_pattern(kind.storage),
        title: kind.title,
    }
}

/// The routes that a registry gives: one for each kind whose storage path has a
/// placeholder, in order.
pub open spec fn routes_of(kinds: Seq<RemoteKindView>) -> Seq<RouteView>
    decreases kinds.len(),
{
    if kinds.len() == 0 {
        Seq::empty()
    } else if kinds.last().storage.contains('{') {
        routes_of(kinds.drop_last()).push(route_of(kinds.last()))
    } else {
        routes_of(kinds.drop_last())
    }
}

/// The routes that a registry gives.
pub fn routes(kinds: &Vec<RemoteKind>) -> (r: Vec<Route>)
    ensures
        r.deep_view() == routes_of(kinds.deep_view()),
{
    let mut r: Vec<Route> = Vec::new();
    let mut i: usize = 0;
    let ghost all = kinds.deep_view();
    assert(r.deep_view() =~= routes_of(all.take(0)));
    while i < kinds.len()
        invariant
            i <= kinds.len(),
            all == kinds.deep_view(),
            r.deep_view() == routes_of(all.take(i as int)),
        decreases kinds.len() - i,
    {
        assert(all.take(i + 1).drop_last() =~= all.take(i as int));
        assert(all.take(i + 1).last() == kinds@[i as int].deep_view());
        let ghost before = r.deep_view();
        if has_char(kinds[i].storage.as_str(), '{') {
            r.push(
                Route {
                    kind: kinds[i].name.clone(),
                    pattern: storage_regex(kinds[i].storage.as_str()),
                    title: kinds[i].title.clone(),
                },
            );
            assert(r.deep_view() =~= before.push(route_of(kinds@[i as int].deep_view())));
        }
        i += 1;
    }
    assert(all.take(i as int) =~= all);
    r
}

/// The groups of a match but for the whole, those that took part, in order.
pub open spec fn participating(groups: Seq<Option<Seq<char>>>) -> Seq<Seq<char>>
    decreases groups.len(),
{
    if groups.len() <= 1 {
        Seq::empty()
    } else {
        match groups.last() {
            Some(g) => participating(groups.drop_last()).push(g),
            None => participating(groups.drop_last()),
        }
    }
}

/// The groups that each route's expression has in a path.
pub open spec fn matches_of(routes: Seq<RouteView>, path: Seq<char>) -> Seq<
    Option<Seq<Option<Seq<char>>>>,
> {
    Seq::new(routes.len(), |i: int| regex_groups(routes[i].pattern, path))
}

/// The kind, the identity and the title field that the first route with a match
/// gives.
pub open spec fn routed_by(
    routes: Seq<RouteView>,
    matches: Seq<Option<Seq<Option<Seq<char>>>>>,
) -> Option<(Seq<char>, Seq<char>, Option<Seq<char>>)>
    decreases routes.len(),
{
    if routes.len() == 0 || matches.len() == 0 {
        None
    } else {
        match matches[0] {
            Some(groups) => Some(
                (
                    routes[0].kind,
                    text::joined(participating(groups), "/"@),
                    routes[0].title,
                ),
            ),
            None => routed_by(routes.drop_first(), matches.drop_first()),
        }
    }
}

/// The kind, the identity and the title field of the record at `path`, by the
/// first route that matches.
pub open spec fn routed(routes: Seq<RouteView>, path: Seq<char>) -> Option<
    (Seq<char>, Seq<char>, Option<Seq<char>>),
> {
    routed_by(routes, matches_of(routes, path))
}

/// The identity of a record by the groups of its match.
pub fn identity(groups: &Vec<Option<String>>) -> (r: String)
    ensures
        r@ == text::joined(participating(groups.deep_view()), "/"@),
{
    let mut parts: Vec<String> = Vec::new();
    let mut i: usize = 1;
    let ghost all = groups.deep_view();
    if groups.len() == 0 {
        assert(parts.deep_view() =~= participating(all));
        return join(&parts, "/");
    }
    assert(parts.deep_view() =~= participating(all.take(1)));
    while i < groups.len()
        invariant
            1 <= i <= groups.len(),
            all == groups.deep_view(),
            parts.deep_view() == participating(all.take(i as int)),
        decreases groups.len() - i,
    {
        assert(all.take(i + 1).drop_last() =~= all.take(i as int));
        assert(all.take(i + 1).last() == groups@[i as int].deep_view());
        let ghost before = parts.deep_view();
        if let Some(g) = &groups[i] {
            parts.push(g.clone());
            assert(parts.deep_view() =~= before.push(g@));
        }
        i += 1;
    }
    assert(all.take(i as int) =~= all);
    join(&parts, "/")
}

/// The kind, the identity and the title field that the first route with a match
/// gives.
pub fn pick_route(routes: &Vec<Route>, matches: &Vec<Option<Vec<Option<String>>>>) -> (r: Option<
    (String, String, Option<String>),
>)
    ensures
        r.deep_view() == routed_by(routes.deep_view(), matches.deep_view()),
{
    let mut i: usize = 0;
    let ghost all = routes.deep_view();
    let ghost found = matches.deep_view();
    assert(all.skip(0) =~= all && found.skip(0) =~= found);
    while i < routes.len() && i < matches.len()
        invariant
            i <= routes.len(),
            i <= matches.len(),
            all == routes.deep_view(),
            found == matches.deep_view(),
            routed_by(all, found) == routed_by(all.skip(i as int), found.skip(i as int)),
        decreases routes.len() - i,
    {
        assert(all.skip(i as int)[0] == routes@[i as int].deep_view());
        assert(found.skip(i as int)[0] == matches@[i as int].deep_view());
        assert(all.skip(i as int).drop_first() =~= all.skip(i + 1));
        assert(found.skip(i as int).drop_first() =~= found.skip(i + 1));
        if let Some(groups) = &matches[i] {
            return Some((routes[i].kind.clone(), identity(groups), routes[i].title.clone()));
        }
        i += 1;
    }
    None
}

/// The kind, the identity and the title field of the record at `path`, by the
/// first route that matches.
pub fn route(routes: &Vec<Route>, path: &str) -> (r: Option<(String, String, Option<String>)>)
    ensures
        r.deep_view() == routed(routes.deep_view(), path@),
{
    let mut matches: Vec<Option<Vec<Option<String>>>> = Vec::new();
    let mut i: usize = 0;
    let ghost all = matches_of(routes.deep_view(), path@);
    assert(matches.deep_view() =~= all.take(0));
    while i < routes.len()
        invariant
            i <= routes.len(),
            all == matches_of(routes.deep_view(), path@),
            matches.deep_view() == all.take(i as int),
        decreases routes.len() - i,
    {
        let ghost before = matches.deep_view();
        assert(routes.deep_view()[i as int] == routes@[i as int].deep_view());
        let groups = captures(routes[i].pattern.as_str(), path);
        matches.push(groups);
        assert(matches.deep_view() =~= before.push(groups.deep_view()));
        i += 1;
        assert(matches.deep_view() =~= all.take(i as int));
    }
    assert(all.take(i as int) =~= all);
    pick_route(routes, &matches)
}

// Best-effort titles.

/// The string that a table holds under the string key `name`: the first such
/// entry.
pub open spec fn string_at(
    entries: Seq<(Option<Seq<char>>, Option<Seq<char>>)>,
    name: Seq<char>,
) -> Option<Seq<char>>
    decreases entries.len(),
{
    if entries.len() == 0 {
        None
    } else if entries[0].0 == Some(name) && entries[0].1 is Some {
        entries[0].1
    } else {
        string_at(entries.drop_first(), name)
    }
}

/// The entries of the table that some bytes hold, as UTF-8 text in RON.
pub open spec fn table_of(bytes: Seq<u8>) -> Option<Seq<(Option<Seq<char>>, Option<Seq<char>>)>> {
    match text::utf8_text(bytes) {
        Some(t) => document::string_table(t),
        None => None,
    }
}

/// A record's value of its title field.
pub open spec fn title_of(bytes: Seq<u8>, field: Seq<char>) -> Option<Seq<char>> {
    match table_of(bytes) {
        Some(entries) => string_at(entries, field),
        None => None,
    }
}

/// A text, empty where there is none.
pub open spec fn or_empty(s: Option<Seq<char>>) -> Seq<char> {
    match s {
        Some(s) => s,
        None => Seq::empty(),
    }
}

/// `accepted '<proposal_slug>' at <accepted_at>` off the entries of a receipt.
pub open spec fn receipt_line(entries: Seq<(Option<Seq<char>>, Option<Seq<char>>)>) -> Seq<char> {
    "accepted '"@ + or_empty(string_at(entries, "proposal_slug"@)) + "' at "@ + or_empty(
        string_at(entries, "accepted_at"@),
    )
}

/// What a receipt says was accepted and when.
pub open spec fn receipt_meta_of(bytes: Seq<u8>) -> Option<Seq<char>> {
    match table_of(bytes) {
        Some(entries) => Some(receipt_line(entries)),
        None => None,
    }
}

/// The string that a table holds under the string key `name`.
pub fn find_string(entries: &Vec<StringEntry>, name: &str) -> (r: Option<String>)
    ensures
        r.deep_view() == string_at(entries.deep_view(), name@),
{
    let mut i: usize = 0;
    let ghost all = entries.deep_view();
    assert(all.skip(0) =~= all);
    while i < entries.len()
        invariant
            i <= entries.len(),
            all == entries.deep_view(),
            string_at(all, name@) == string_at(all.skip(i as int), name@),
        decreases entries.len() - i,
    {
        assert(all.skip(i as int)[0] == entries@[i as int].deep_view());
        assert(all.skip(i as int).drop_first() =~= all.skip(i + 1));
        let entry = &entries[i];
        if is_text(&entry.0, name) {
            if let Some(v) = &entry.1 {
                return Some(v.clone());
            }
        }
        i += 1;
    }
    None
}

fn read_table(bytes: &[u8]) -> (r: Option<Vec<StringEntry>>)
    ensures
        r.deep_view() == table_of(bytes@),
{
    match text_from_utf8(bytes) {
        Some(t) => read_strings(t.as_str()),
        None => None,
    }
}

/// The record's title, best-effort.
pub fn record_title(bytes: &[u8], field: &str) -> (r: Option<String>)
    ensures
        r.deep_view() == title_of(bytes@, field@),
{
    match read_table(bytes) {
        Some(entries) => find_string(&entries, field),
        None => None,
    }
}

fn text_or_empty(s: Option<String>) -> (r: String)
    ensures
        r@ == or_empty(s.deep_view()),
{
    match s {
        Some(s) => s,
        None => {
            let r = String::new();
            assert(r@ =~= Seq::<char>::empty());
            r
        },
    }
}

/// `accepted '<proposal_slug>' at <accepted_at>` off the entries of a receipt.
pub fn describe_receipt(entries: &Vec<StringEntry>) -> (r: String)
    ensures
        r@ == receipt_line(entries.deep_view()),
{
    let slug = text_or_empty(find_string(entries, "proposal_slug"));
    let at = text_or_empty(find_string(entries, "accepted_at"));
    "accepted '".to_string().concat(slug.as_str()).concat("' at ").concat(at.as_str())
}

/// What a receipt says was accepted and when, best-effort.
pub fn receipt_meta(bytes: &[u8]) -> (r: Option<String>)
    ensures
        r.deep_view() == receipt_meta_of(bytes@),
{
    match read_table(bytes) {
        Some(entries) => Some(describe_receipt(&entries)),
        None => None,
    }
}

// The items.

/// The identity of the receipt at `path`: its name without `receipts/` and
/// `.ron`, or the whole path where it does not end so.
pub open spec fn receipt_id(path: Seq<char>) -> Seq<char> {
    let name = text::without_chars(path, 9);
    if text::ends_with(name, ".ron"@) {
        name.take(name.len() - 4)
    } else {
        path
    }
}

/// The identity, the kind and the description of the remote file at `path`: a
/// receipt, a record of a kind of the remote vocabulary, or a plain file. `record`
/// is the kind and the identity of a record, `said` what the file says of itself.
pub open spec fn presented(
    path: Seq<char>,
    record: Option<(Seq<char>, Seq<char>)>,
    said: Option<Seq<char>>,
) -> (Seq<char>, Seq<char>, Seq<char>) {
    if text::starts_with(path, "receipts/"@) {
        (receipt_id(path), "receipt"@, or_empty(said))
    } else {
        match record {
            Some((kind, id)) => (id, kind, or_empty(said)),
            None => (path, "file"@, Seq::empty()),
        }
    }
}

/// What a remote file says of itself: a receipt what was accepted, a record its
/// title.
pub open spec fn said_of(
    path: Seq<char>,
    record: Option<(Seq<char>, Seq<char>, Option<Seq<char>>)>,
    bytes: Seq<u8>,
) -> Option<Seq<char>> {
    if text::starts_with(path, "receipts/"@) {
        receipt_meta_of(bytes)
    } else {
        match record {
            Some((_, _, Some(field))) => title_of(bytes, field),
            _ => None,
        }
    }
}

/// The item that the remote file at `path` becomes.
pub open spec fn remote_item(routes: Seq<RouteView>, path: Seq<char>, bytes: Seq<u8>) -> ItemView {
    let record = routed(routes, path);
    let (id, kind, meta) = presented(
        path,
        match record {
            Some((kind, id, _)) => Some((kind, id)),
            None => None,
        },
        said_of(path, record, bytes),
    );
    digest::file_item_view(id, kind, path, bytes, meta)
}

/// The identity, the kind and the description of the remote file at `path`.
pub fn present(path: &str, record: Option<(String, String)>, said: Option<String>) -> (r: (
    String,
    String,
    String,
))
    ensures
        r.deep_view() == presented(path@, record.deep_view(), said.deep_view()),
{
    if has_prefix(path, "receipts/") {
        let name = skip_chars(path, 9);
        let id = if has_suffix(name.as_str(), ".ron") {
            let v = chars_of(name.as_str());
            proof {
                reveal_strlit(".ron");
            }
            let id = text_between(&v, 0, v.len() - 4);
            assert(id@ =~= name@.take(name@.len() - 4));
            id
        } else {
            path.to_string()
        };
        assert(id@ == receipt_id(path@));
        return (id, "receipt".to_string(), text_or_empty(said));
    }
    match record {
        Some((kind, id)) => (id, kind, text_or_empty(said)),
        None => (path.to_string(), "file".to_string(), text_or_empty(None)),
    }
}

/// The item of the remote vocabulary itself.
pub open spec fn registry_item(text: Seq<char>, head: Seq<char>) -> ItemView {
    digest::file_item_view(
        "registry"@,
        "registry"@,
        "registry.ron"@,
        vstd::utf8::encode_utf8(text),
        "the remote KB's vocabulary · HEAD "@ + head,
    )
}

/// The remote files that are read, in order: those that an included path
/// matches, but nothing of git's own.
pub open spec fn remote_selection(paths: Seq<Seq<char>>, included: Seq<Seq<char>>) -> Seq<
    Seq<char>,
> {
    tree::reading_order(paths).filter(
        |p: Seq<char>|
            !text::starts_with(p, ".git/"@) && patterns::selects(
                included,
                p,
                patterns::whole_path(),
            ),
    )
}

fn select_remote(paths: Vec<String>, included: &Vec<String>) -> (r: Vec<String>)
    ensures
        r.deep_view() == remote_selection(paths.deep_view(), included.deep_view()),
{
    let matching = Matching {
        case_sensitive: true,
        literal_separator: false,
        literal_leading_dot: false,
    };
    let ghost kept = |p: Seq<char>|
        !text::starts_with(p, ".git/"@) && patterns::selects(
            included.deep_view(),
            p,
            patterns::whole_path(),
        );
    let keep = |p: &String| -> (b: bool)
        ensures
            b == kept(p@),
        { !has_prefix(p.as_str(), ".git/") && is_selected(included, p.as_str(), matching) };
    filtered(in_reading_order(paths), keep, Ghost(kept))
}

/// What `regex_lite` says against the expression of each route.
pub open spec fn route_verdicts(routes: Seq<RouteView>) -> Seq<Option<Seq<char>>> {
    Seq::new(routes.len(), |i: int| regex_error(routes[i].pattern))
}

/// The first thing said against a route.
pub open spec fn first_said(verdicts: Seq<Option<Seq<char>>>) -> Option<Seq<char>>
    decreases verdicts.len(),
{
    if verdicts.len() == 0 {
        None
    } else {
        match verdicts[0] {
            Some(e) => Some("storage pattern regex: "@ + e),
            None => first_said(verdicts.drop_first()),
        }
    }
}

/// Why the routes cannot be used, if so.
pub open spec fn routes_error(routes: Seq<RouteView>) -> Option<Seq<char>> {
    first_said(route_verdicts(routes))
}

/// The first thing said against a route.
pub fn pick_said(verdicts: &Vec<Option<String>>) -> (r: Option<String>)
    ensures
        r.deep_view() == first_said(verdicts.deep_view()),
{
    let mut i: usize = 0;
    let ghost all = verdicts.deep_view();
    assert(all.skip(0) =~= all);
    while i < verdicts.len()
        invariant
            i <= verdicts.len(),
            all == verdicts.deep_view(),
            first_said(all) == first_said(all.skip(i as int)),
        decreases verdicts.len() - i,
    {
        assert(all.skip(i as int)[0] == verdicts@[i as int].deep_view());
        assert(all.skip(i as int).drop_first() =~= all.skip(i + 1));
        if let Some(e) = &verdicts[i] {
            return Some("storage pattern regex: ".to_string().concat(e.as_str()));
        }
        i += 1;
    }
    None
}

fn check_routes(routes: &Vec<Route>) -> (r: Option<String>)
    ensures
        r.deep_view() == routes_error(routes.deep_view()),
{
    let mut verdicts: Vec<Option<String>> = Vec::new();
    let mut i: usize = 0;
    let ghost all = route_verdicts(routes.deep_view());
    assert(verdicts.deep_view() =~= all.take(0));
    while i < routes.len()
        invariant
            i <= routes.len(),
            all == route_verdicts(routes.deep_view()),
            verdicts.deep_view() == all.take(i as int),
        decreases routes.len() - i,
    {
        let ghost before = verdicts.deep_view();
        assert(routes.deep_view()[i as int] == routes@[i as int].deep_view());
        let verdict = regex_complaint(routes[i].pattern.as_str());
        verdicts.push(verdict);
        assert(verdicts.deep_view() =~= before.push(verdict.deep_view()));
        i += 1;
        assert(verdicts.deep_view() =~= all.take(i as int));
    }
    assert(all.take(i as int) =~= all);
    pick_said(&verdicts)
}

/// A federation in progress: the remote vocabulary, and the files of the remote
/// on their way to becoming items.
pub struct Federation {
    routes: Vec<Route>,
    files: Gathering,
}

#[verifier::ext_equal]
pub struct FederationView {
    pub routes: Seq<RouteView>,
    pub files: GatheringView,
}

impl View for Federation {
    type V = FederationView;

    closed spec fn view(&self) -> FederationView {
        FederationView { routes: self.routes.deep_view(), files: self.files@ }
    }
}

/// The routes that the remote registry gives, none where it cannot be read.
pub open spec fn remote_routes(registry: Option<Seq<char>>) -> Seq<RouteView> {
    match registry {
        Some(t) => match registry_of(t) {
            Some(kinds) => routes_of(kinds),
            None => Seq::empty(),
        },
        None => Seq::empty(),
    }
}

/// A federation before the first file, with the files that were selected: the
/// vocabulary is an item already.
pub open spec fn opened(
    head: Seq<char>,
    registry: Option<Seq<char>>,
    routes: Seq<RouteView>,
    selected: Seq<Seq<char>>,
) -> FederationView {
    FederationView {
        routes,
        files: GatheringView {
            pending: selected,
            items: match registry {
                Some(t) => seq![registry_item(t, head)],
                None => Seq::empty(),
            },
            notes: match registry {
                Some(_) => seq!["remote HEAD "@ + head],
                None => seq![
                    "remote HEAD "@ + head,
                    "remote has no readable registry.ron — records swept as plain files"@,
                ],
            },
        },
    }
}

/// A federation before the first file.
pub open spec fn opening(
    included: Seq<Seq<char>>,
    head: Seq<char>,
    registry: Option<Seq<char>>,
    paths: Seq<Seq<char>>,
) -> FederationView {
    opened(head, registry, remote_routes(registry), remote_selection(paths, included))
}

/// Why a federation cannot begin, if so.
pub open spec fn opening_error(included: Seq<Seq<char>>, registry: Option<Seq<char>>) -> Option<
    Seq<char>,
> {
    match routes_error(remote_routes(registry)) {
        Some(e) => Some(e),
        None => match patterns::bad_pattern(included) {
            Some((_, e)) => Some(e),
            None => None,
        },
    }
}

impl Federation {
    /// Begins with the files that were selected, in this order.
    pub fn over(
        head: &str,
        registry: &Option<String>,
        routes: Vec<Route>,
        selected: Vec<String>,
    ) -> (f: Federation)
        ensures
            f@ == opened(head@, registry.deep_view(), routes.deep_view(), selected.deep_view()),
    {
        let mut notes: Vec<String> = Vec::new();
        notes.push("remote HEAD ".to_string().concat(head));
        let mut items: Vec<Item> = Vec::new();
        match registry {
            Some(t) => {
                let meta = "the remote KB's vocabulary · HEAD ".to_string().concat(head);
                items.push(
                    file_item("registry", "registry", "registry.ron", t.as_str().as_bytes(), meta),
                );
            },
            None => {
                notes.push(
                    "remote has no readable registry.ron — records swept as plain files".to_string(),
                );
            },
        }
        let ghost o = opened(
            head@,
            registry.deep_view(),
            routes.deep_view(),
            selected.deep_view(),
        );
        assert(items.deep_view() =~= o.files.items);
        assert(notes.deep_view() =~= o.files.notes);
        Federation { routes, files: Gathering::new(selected, items, notes) }
    }

    /// Begins with what the clone holds: the commit, the registry where it can be
    /// read, and the paths of all files.
    pub fn begin(
        config: &Config,
        head: &str,
        registry: &Option<String>,
        paths: Vec<String>,
    ) -> (r: Result<Federation, String>)
        ensures
            match r {
                Ok(f) => opening_error(config.deep_view().include_paths, registry.deep_view()) is None
                    && f@ == opening(
                    config.deep_view().include_paths,
                    head@,
                    registry.deep_view(),
                    paths.deep_view(),
                ),
                Err(e) => opening_error(config.deep_view().include_paths, registry.deep_view())
                    == Some(e@),
            },
    {
        let mut known: Vec<Route> = Vec::new();
        if let Some(t) = registry {
            if let Some(kinds) = read_registry(t.as_str()) {
                known = routes(&kinds);
            }
        }
        assert(known.deep_view() =~= remote_routes(registry.deep_view()));
        if let Some(e) = check_routes(&known) {
            return Err(e);
        }
        if let Some((_, e)) = find_bad(&config.include_paths) {
            return Err(e);
        }
        let selected = select_remote(paths, &config.include_paths);
        Ok(Federation::over(head, registry, known, selected))
    }

    /// The file to be read next.
    pub fn next_path(&self) -> (r: Option<&String>)
        ensures
            match r {
                Some(p) => self@.files.pending.len() > 0 && p@ == self@.files.pending[0],
                None => self@.files.pending.len() == 0,
            },
    {
        self.files.next_path()
    }

    /// Takes the bytes of the next file.
    pub fn take(&mut self, bytes: &[u8])
        requires
            old(self)@.files.pending.len() > 0,
        ensures
            final(self)@ == (FederationView {
                routes: old(self)@.routes,
                files: old(self)@.files.keeping(
                    remote_item(old(self)@.routes, old(self)@.files.pending[0], bytes@),
                ),
            }),
    {
        let path = match self.files.next_path() {
            Some(p) => p.clone(),
            None => {
                return ;
            },
        };
        let (record, said) = if has_prefix(path.as_str(), "receipts/") {
            (None, receipt_meta(bytes))
        } else {
            match route(&self.routes, path.as_str()) {
                Some((kind, id, title)) => {
                    let said = match title {
                        Some(field) => record_title(bytes, field.as_str()),
                        None => None,
                    };
                    (Some((kind, id)), said)
                },
                None => (None, None),
            }
        };
        let (id, kind, meta) = present(path.as_str(), record, said);
        self.files.keep_as(id.as_str(), kind.as_str(), bytes, meta);
    }

    /// The result of the run.
    pub fn finish(self) -> (r: FetchResult)
        ensures
            r.deep_view() == (FetchResultView {
                items: self@.files.items,
                notes: text::joined(self@.files.notes, " · "@),
                next_checkpoint: None,
            }),
    {
        let (items, notes) = self.files.finish();
        FetchResult { items, notes: join(&notes, " · "), next_checkpoint: None }
    }
}

/// A federation after the bytes of some further files were taken, in order.
pub open spec fn federated(f: FederationView, contents: Seq<Seq<u8>>) -> FederationView
    decreases contents.len(),
{
    if contents.len() == 0 {
        f
    } else {
        federated(
            FederationView {
                routes: f.routes,
                files: f.files.keeping(remote_item(f.routes, f.files.pending[0], contents[0])),
            },
            contents.drop_first(),
        )
    }
}

/// A federation that has taken every selected file holds one item per file, in
/// reading order, behind those it began with, and no file is left out.
pub proof fn law_every_selected_file_becomes_one_item(f: FederationView, contents: Seq<Seq<u8>>)
    requires
        contents.len() == f.files.pending.len(),
    ensures
        federated(f, contents) == (FederationView {
            routes: f.routes,
            files: GatheringView {
                pending: Seq::empty(),
                items: f.files.items + Seq::new(
                    contents.len(),
                    |i: int| remote_item(f.routes, f.files.pending[i], contents[i]),
                ),
                notes: f.files.notes,
            },
        }),
    decreases contents.len(),
{
    let made = Seq::new(
        contents.len(),
        |i: int| remote_item(f.routes, f.files.pending[i], contents[i]),
    );
    if contents.len() == 0 {
        assert(f.files.pending =~= Seq::empty());
        assert(f.files.items + made =~= f.files.items);
    } else {
        let g = FederationView {
            routes: f.routes,
            files: f.files.keeping(remote_item(f.routes, f.files.pending[0], contents[0])),
        };
        let rest = contents.drop_first();
        law_every_selected_file_becomes_one_item(g, rest);
        let made_rest = Seq::new(
            rest.len(),
            |i: int| remote_item(g.routes, g.files.pending[i], rest[i]),
        );
        assert forall|i: int| 0 <= i < rest.len() implies #[trigger] made_rest[i] == made[i + 1] by {
            assert(g.files.pending[i] == f.files.pending[i + 1]);
            assert(rest[i] == contents[i + 1]);
        }
        assert(f.files.items + made =~= g.files.items + made_rest);
    }
}

/// The routes of a registry are its kinds whose storage path holds a `{`, in order, each
/// with its own name, the expression of its own storage path and its own title field.
pub proof fn law_every_kind_with_a_placeholder_has_its_route(kinds: Seq<RemoteKindView>)
    ensures
        routes_of(kinds) == kinds.filter(
            |k: RemoteKindView| k.storage.contains('{'),
        ).map_values(
            |k: RemoteKindView|
                RouteView { kind: k.name, pattern: storage_pattern(k.storage), title: k.title },
        ),
    decreases kinds.len(),
{
    reveal(Seq::filter);
    let placed = |k: RemoteKindView| k.storage.contains('{');
    let made = |k: RemoteKindView|
        RouteView { kind: k.name, pattern: storage_pattern(k.storage), title: k.title };
    if kinds.len() > 0 {
        law_every_kind_with_a_placeholder_has_its_route(kinds.drop_last());
    }
    assert(routes_of(kinds) =~= kinds.filter(placed).map_values(made));
}

/// Every kind keeps its route whatever kinds stand around it: the routes of two lists of
/// kinds, one behind the other, are the routes of the first and then those of the second.
pub proof fn law_kinds_are_routed_one_by_one(a: Seq<RemoteKindView>, b: Seq<RemoteKindView>)
    ensures
        routes_of(a + b) == routes_of(a) + routes_of(b),
        routes_of(seq![]) == Seq::<RouteView>::empty(),
        forall|k: RemoteKindView| #[trigger]
            routes_of(seq![k]).len() == if k.storage.contains('{') {
                1int
            } else {
                0int
            },
        forall|k: RemoteKindView|
            k.storage.contains('{') ==> (#[trigger] routes_of(seq![k]))[0] == (RouteView {
                kind: k.name,
                pattern: storage_pattern(k.storage),
                title: k.title,
            }),
    decreases b.len(),
{
    assert forall|k: RemoteKindView| true implies #[trigger] routes_of(seq![k]) == (
    if k.storage.contains('{') {
        seq![
            RouteView { kind: k.name, pattern: storage_pattern(k.storage), title: k.title },
        ]
    } else {
        Seq::empty()
    }) by {
        assert(seq![k].drop_last() =~= Seq::<RemoteKindView>::empty());
        assert(seq![k].last() == k);
        reveal_with_fuel(routes_of, 2);
    }
    if b.len() == 0 {
        assert(a + b =~= a);
        assert(routes_of(a) + routes_of(b) =~= routes_of(a));
    } else {
        law_kinds_are_routed_one_by_one(a, b.drop_last());
        assert((a + b).drop_last() =~= a + b.drop_last());
        assert(routes_of(a + b) =~= routes_of(a) + routes_of(b));
    }
}

proof fn lemma_escape_append(a: Seq<char>, b: Seq<char>)
    ensures
        regex_escaped(a + b) == regex_escaped(a) + regex_escaped(b),
    decreases b.len(),
{
    if b.len() == 0 {
        assert(a + b =~= a);
        assert(regex_escaped(a) + regex_escaped(b) =~= regex_escaped(a));
    } else {
        assert((a + b).drop_last() =~= a + b.drop_last());
        lemma_escape_append(a, b.drop_last());
        assert(regex_escaped(a + b) =~= regex_escaped(a) + regex_escaped(b));
    }
}

proof fn lemma_first_place(before: Seq<char>, c: char, behind: Seq<char>)
    requires
        !before.contains(c),
    ensures
        text::index_of(before + seq![c] + behind, c, 0) == before.len(),
        text::index_of(before, c, 0) == before.len(),
{
    let s = before + seq![c] + behind;
    text::lemma_index_of(s, c, 0);
    text::lemma_index_of(before, c, 0);
    let i = text::index_of(s, c, 0);
    assert(s[before.len() as int] == c);
    if i < before.len() {
        assert(before[i] == c);
    }
    let j = text::index_of(before, c, 0);
    if j < before.len() {
        assert(before[j] == c);
    }
}

proof fn lemma_place_behind(s: Seq<char>, c: char, from: int, at: int)
    requires
        0 <= from <= at < s.len(),
        s[at] == c,
        forall|j: int| from <= j < at ==> s[j] != c,
    ensures
        text::index_of(s, c, from) == at,
{
    text::lemma_index_of(s, c, from);
}

/// A storage path becomes an expression that stands for the whole of a path, piece by
/// piece: what stands before a placeholder literally, one group for the placeholder
/// whatever its name, and then the rest in the same way. A placeholder that is not closed
/// takes all that follows it, and a path without one is itself, literally.
pub proof fn law_one_group_per_placeholder(
    literal: Seq<char>,
    name: Seq<char>,
    rest: Seq<char>,
)
    requires
        !literal.contains('{'),
        !name.contains('}'),
    ensures
        storage_pattern(literal) == "^"@ + regex_escaped(literal) + "$"@,
        storage_pattern(literal + seq!['{'] + name) == "^"@ + regex_escaped(literal) + "([^/]+)"@
            + "$"@,
        exists|tail: Seq<char>|
            storage_pattern(rest) == "^"@ + tail + "$"@ && #[trigger] ("^"@ + regex_escaped(literal)
                + "([^/]+)"@ + tail + "$"@) == storage_pattern(
                literal + seq!['{'] + name + seq!['}'] + rest,
            ),
{
    lemma_first_place(literal, '{', name + seq!['}'] + rest);
    lemma_first_place(literal, '{', name);
    let whole = literal + seq!['{'] + name + seq!['}'] + rest;
    let n = literal.len() as int;
    assert(whole =~= literal + seq!['{'] + (name + seq!['}'] + rest));
    assert(storage_body(literal) == regex_escaped(literal));
    let open = literal + seq!['{'] + name;
    assert(open.take(n) =~= literal);
    assert(whole.take(n) =~= literal);
    text::lemma_index_of(open, '}', n);
    assert(text::index_of(open, '}', n) == open.len()) by {
        let k = text::index_of(open, '}', n);
        if k < open.len() {
            if k > n {
                assert(name[k - n - 1] == '}');
            }
        }
    }
    assert(storage_body(Seq::empty()) =~= Seq::empty()) by {
        assert(text::index_of(Seq::<char>::empty(), '{', 0) == 0);
    }
    assert(storage_body(open) =~= regex_escaped(literal) + "([^/]+)"@);
    let at = n + 1 + name.len();
    assert forall|j: int| n <= j < at implies whole[j] != '}' by {
        if j > n {
            assert(name[j - n - 1] == whole[j]);
        }
    }
    lemma_place_behind(whole, '}', n, at);
    assert(text::without_chars(whole, at + 1) =~= rest);
    assert(storage_body(whole) == regex_escaped(literal) + "([^/]+)"@ + storage_body(rest));
    let tail = storage_body(rest);
    assert("^"@ + regex_escaped(literal) + "([^/]+)"@ + tail + "$"@ =~= storage_pattern(whole));
    assert("^"@ + regex_escaped(literal) + "([^/]+)"@ + "$"@ =~= storage_pattern(open));
}

/// A literal part of a storage path stands for itself: each character that has a meaning
/// of its own is escaped, every other one stays, and their order is kept.
pub proof fn law_literals_stand_for_themselves(a: Seq<char>, b: Seq<char>, c: char)
    ensures
        regex_escaped(a + b) == regex_escaped(a) + regex_escaped(b),
        regex_escaped(seq![c]) == if regex_meta(c) {
            seq!['\\', c]
        } else {
            seq![c]
        },
{
    lemma_escape_append(a, b);
    assert(seq![c].drop_last() =~= Seq::<char>::empty());
    reveal_with_fuel(regex_escaped, 2);
    assert(regex_escaped(seq![c]) =~= if regex_meta(c) {
        seq!['\\', c]
    } else {
        seq![c]
    });
}

/// The groups that took part in a match are its groups behind the whole, in order,
/// without those that did not take part.
pub proof fn law_every_group_counts(groups: Seq<Option<Seq<char>>>)
    requires
        groups.len() > 0,
    ensures
        participating(groups) == groups.skip(1).filter(
            |g: Option<Seq<char>>| g is Some,
        ).map_values(|g: Option<Seq<char>>| g->Some_0),
    decreases groups.len(),
{
    reveal(Seq::filter);
    let took = |g: Option<Seq<char>>| g is Some;
    let text_in = |g: Option<Seq<char>>| g->Some_0;
    if groups.len() > 1 {
        law_every_group_counts(groups.drop_last());
        assert(groups.skip(1).drop_last() =~= groups.drop_last().skip(1));
        assert(groups.skip(1).last() == groups.last());
    } else {
        assert(groups.skip(1) =~= Seq::empty());
    }
    assert(participating(groups) =~= groups.skip(1).filter(took).map_values(text_in));
}

/// A path is a record of the first kind whose expression matches it, with the kind and
/// the title field of that route and the groups of that match as its identity; it is no
/// record exactly where no expression matches.
pub proof fn law_the_first_match_routes(
    routes: Seq<RouteView>,
    matches: Seq<Option<Seq<Option<Seq<char>>>>>,
)
    requires
        routes.len() == matches.len(),
    ensures
        routed_by(routes, matches) is Some <==> exists|i: int|
            0 <= i < matches.len() && (#[trigger] matches[i]) is Some,
        forall|i: int|
            0 <= i < matches.len() && (#[trigger] matches[i]) is Some && (forall|j: int|
                0 <= j < i ==> (#[trigger] matches[j]) is None) ==> routed_by(routes, matches)
                == Some(
                (
                    routes[i].kind,
                    text::joined(participating(matches[i]->Some_0), "/"@),
                    routes[i].title,
                ),
            ),
    decreases routes.len(),
{
    if routes.len() > 0 {
        let more = matches.drop_first();
        law_the_first_match_routes(routes.drop_first(), more);
        assert forall|i: int|
            0 <= i < matches.len() && (#[trigger] matches[i]) is Some && (forall|j: int|
                0 <= j < i ==> (#[trigger] matches[j]) is None) implies routed_by(routes, matches)
            == Some(
            (
                routes[i].kind,
                text::joined(participating(matches[i]->Some_0), "/"@),
                routes[i].title,
            ),
        ) by {
            if i > 0 {
                assert(matches[0] is None);
                assert(more[i - 1] == matches[i]);
                assert forall|j: int| 0 <= j < i - 1 implies (#[trigger] more[j]) is None by {
                    assert(more[j] == matches[j + 1]);
                }
                assert(routes.drop_first()[i - 1] == routes[i]);
            }
        }
        if exists|i: int| 0 <= i < matches.len() && (#[trigger] matches[i]) is Some {
            let i = choose|i: int| 0 <= i < matches.len() && (#[trigger] matches[i]) is Some;
            if i > 0 {
                assert(more[i - 1] is Some);
            }
        }
        if exists|i: int| 0 <= i < more.len() && (#[trigger] more[i]) is Some {
            let i = choose|i: int| 0 <= i < more.len() && (#[trigger] more[i]) is Some;
            assert(matches[i + 1] is Some);
        }
    }
}

/// What a table holds under a name is the value of the first entry of that name that is
/// a string, and there is none exactly where there is no such entry.
pub proof fn law_the_first_string_of_a_name_counts(
    entries: Seq<(Option<Seq<char>>, Option<Seq<char>>)>,
    name: Seq<char>,
)
    ensures
        string_at(entries, name) is None <==> forall|i: int|
            0 <= i < entries.len() ==> !((#[trigger] entries[i]).0 == Some(name)
                && entries[i].1 is Some),
        forall|i: int|
            0 <= i < entries.len() && (#[trigger] entries[i]).0 == Some(name)
                && entries[i].1 is Some && (forall|j: int|
                0 <= j < i ==> !((#[trigger] entries[j]).0 == Some(name) && entries[j].1 is Some))
                ==> string_at(entries, name) == entries[i].1,
    decreases entries.len(),
{
    if entries.len() > 0 {
        let more = entries.drop_first();
        law_the_first_string_of_a_name_counts(more, name);
        assert forall|i: int| 0 <= i < more.len() implies #[trigger] more[i] == entries[i + 1] by {}
        assert forall|i: int| 0 < i < entries.len() implies #[trigger] entries[i] == more[i - 1] by {}
        assert forall|i: int|
            0 <= i < entries.len() && (#[trigger] entries[i]).0 == Some(name) && entries[i].1 is Some
                && (forall|j: int|
                0 <= j < i ==> !((#[trigger] entries[j]).0 == Some(name) && entries[j].1 is Some))
            implies string_at(entries, name) == entries[i].1 by {
            if i > 0 {
                assert(!(entries[0].0 == Some(name) && entries[0].1 is Some));
                assert(more[i - 1] == entries[i]);
                assert forall|j: int| 0 <= j < i - 1 implies !((#[trigger] more[j]).0 == Some(name)
                    && more[j].1 is Some) by {
                    assert(more[j] == entries[j + 1]);
                }
            }
        }
        if string_at(entries, name) is None {
            assert forall|i: int| 0 <= i < entries.len() implies !((#[trigger] entries[i]).0 == Some(
                name,
            ) && entries[i].1 is Some) by {
                if i > 0 {
                    assert(more[i - 1] == entries[i]);
                }
            }
        }
    }
}

/// A remote file becomes one item that holds its bytes' digest and its own path, and
/// neither a version nor a place within a bundle. Under `receipts/` it is a receipt, named
/// by what stands between that and `.ron`; elsewhere it is a record of the kind and the
/// identity that its route gives, titled by its own title field; a file without a route is
/// itself.
pub proof fn law_a_remote_file_is_what_its_path_says(
    routes: Seq<RouteView>,
    path: Seq<char>,
    bytes: Seq<u8>,
    name: Seq<char>,
)
    ensures
        remote_item(routes, path, bytes).content_hash == digest::sha256_text(bytes),
        remote_item(routes, path, bytes).files == seq![path],
        remote_item(routes, path, bytes).version is None,
        remote_item(routes, path, bytes).locator is None,
        remote_item(routes, path, bytes).file_hashes == Map::<Seq<char>, Seq<char>>::empty(),
        ({
            let receipt = remote_item(routes, "receipts/"@ + name + ".ron"@, bytes);
            &&& receipt.kind == "receipt"@
            &&& receipt.id == name
            &&& receipt.meta == match receipt_meta_of(bytes) {
                Some(said) => said,
                None => Seq::empty(),
            }
        }),
        text::starts_with(path, "receipts/"@) ==> remote_item(routes, path, bytes).kind
            == "receipt"@,
        !text::ends_with(name, ".ron"@) ==> remote_item(routes, "receipts/"@ + name, bytes).id
            == "receipts/"@ + name,
        !text::starts_with(path, "receipts/"@) ==> match routed(routes, path) {
            Some((kind, id, title)) => {
                &&& remote_item(routes, path, bytes).kind == kind
                &&& remote_item(routes, path, bytes).id == id
                &&& remote_item(routes, path, bytes).meta == match title {
                    Some(field) => match title_of(bytes, field) {
                        Some(said) => said,
                        None => Seq::empty(),
                    },
                    None => Seq::empty(),
                }
            },
            None => {
                &&& remote_item(routes, path, bytes).kind == "file"@
                &&& remote_item(routes, path, bytes).id == path
                &&& remote_item(routes, path, bytes).meta == Seq::<char>::empty()
            },
        },
{
    reveal_strlit("receipts/");
    reveal_strlit(".ron");
    let whole = "receipts/"@ + name + ".ron"@;
    assert(whole.take(9) =~= "receipts/"@);
    let behind = text::without_chars(whole, 9);
    assert(behind =~= name + ".ron"@);
    assert(behind.skip(behind.len() - 4) =~= ".ron"@);
    assert(behind.take(behind.len() - 4) =~= name);
    let other = "receipts/"@ + name;
    assert(other.take(9) =~= "receipts/"@);
    assert(text::without_chars(other, 9) =~= name);
}

/// Every path of the remote that an included path matches is read, but for git's own,
/// exactly as often as it is there.
pub proof fn law_every_included_path_is_read(
    paths: Seq<Seq<char>>,
    included: Seq<Seq<char>>,
    path: Seq<char>,
)
    ensures
        remote_selection(paths, included).to_multiset().count(path) == if !text::starts_with(
            path,
            ".git/"@,
        ) && (exists|i: int|
            0 <= i < included.len() && #[trigger] patterns::glob_match(
                included[i],
                path,
                Matching {
                    case_sensitive: true,
                    literal_separator: false,
                    literal_leading_dot: false,
                },
            )) {
            paths.to_multiset().count(path)
        } else {
            0
        },
{
    let keep = |p: Seq<char>|
        !text::starts_with(p, ".git/"@) && patterns::selects(included, p, patterns::whole_path());
    tree::lemma_filter_counts(tree::reading_order(paths), keep, path);
    crate::sorting::lemma_sorted::<tree::TreePath>(paths);
}

/// Nothing of git's own and nothing outside the included paths is read.
pub proof fn law_only_included_paths_are_read(
    paths: Seq<Seq<char>>,
    included: Seq<Seq<char>>,
    i: int,
)
    requires
        0 <= i < remote_selection(paths, included).len(),
    ensures
        paths.contains(remote_selection(paths, included)[i]),
        !text::starts_with(remote_selection(paths, included)[i], ".git/"@),
        patterns::selects(
            included,
            remote_selection(paths, included)[i],
            patterns::whole_path(),
        ),
{
    broadcast use vstd::seq_lib::group_to_multiset_ensures;

    let keep = |p: Seq<char>|
        !text::starts_with(p, ".git/"@) && patterns::selects(included, p, patterns::whole_path());
    let ordered = tree::reading_order(paths);
    ordered.lemma_filter_pred(keep, i);
    tree::lemma_filter_contained(ordered, keep, i);
    crate::sorting::lemma_sorted::<tree::TreePath>(paths);
    let p = ordered.filter(keep)[i];
    assert(ordered.to_multiset().count(p) > 0);
    assert(paths.to_multiset().count(p) > 0);
}

impl KbPlugin {
    /// How the source presents itself.
    pub fn describe(&self) -> (d: Describe)
        ensures
            d.deep_view() == (DescribeView {
                name: "kb"@,
                link_namespace: "kb"@,
                fetch_style: FetchStyle::Sweep,
                auth_realm: None,
                protocol: plugin::PROTOCOL,
            }),
    {
        describe_source("kb", "kb", FetchStyle::Sweep)
    }

    /// Refuses a configuration that cannot be fetched with.
    pub fn validate_config(&self, config: &str) -> (r: Result<(), String>)
        ensures
            plugin::outcome(r) == (match config_of(config@) {
                Err(e) => Err(e),
                Ok(c) => match config_error(c) {
                    Some(e) => Err(e),
                    None => Ok(()),
                },
            }),
            document::tells_unknown_in(config_shape(), config@, document::refusal(r)),
    {
        match parse_config(config) {
            Err(e) => Err(e),
            Ok(c) => match find_fault(&c, &find_bad(&c.include_paths)) {
                Some(e) => Err(e),
                None => Ok(()),
            },
        }
    }

    /// Git carries its own credentials.
    pub fn auth_status(&self) -> (r: AuthStatus)
        ensures
            r.deep_view() == AuthStatusView::NotRequired,
    {
        AuthStatus::NotRequired
    }

    /// The configuration to sweep with, where a sweep is asked for.
    pub fn plan(&self, spec: &RunSpec, config: &str) -> (r: Result<Config, String>)
        ensures
            config_result(r) == if *spec is Sweep {
                config_of(config@)
            } else {
                Err("kb only sweeps"@)
            },
    {
        match spec {
            RunSpec::Sweep => parse_config(config),
            _ => Err("kb only sweeps".to_string()),
        }
    }

    /// The arguments with which git clones the remote into `dir`: the newest
    /// commit of the configured ref alone.
    pub fn clone_args(&self, config: &Config, dir: &str) -> (r: Vec<String>)
        ensures
            r.deep_view() == seq![
                "clone"@,
                "--depth"@,
                "1"@,
                "--branch"@,
                config.git_ref@,
                "--"@,
                config.url@,
                dir@,
            ],
    {
        let mut r: Vec<String> = Vec::new();
        r.push("clone".to_string());
        r.push("--depth".to_string());
        r.push("1".to_string());
        r.push("--branch".to_string());
        r.push(config.git_ref.clone());
        r.push("--".to_string());
        r.push(config.url.clone());
        r.push(dir.to_string());
        assert(r.deep_view() =~= seq![
            "clone"@,
            "--depth"@,
            "1"@,
            "--branch"@,
            config.git_ref@,
            "--"@,
            config.url@,
            dir@,
        ]);
        r
    }

    /// The commit that git names on its output, empty where git failed.
    pub fn head_of(&self, output: &Option<String>) -> (r: String)
        ensures
            r@ == (match output.deep_view() {
                Some(s) => text::trimmed(s),
                None => Seq::empty(),
            }),
    {
        match output {
            Some(s) => trim(s.as_str()),
            None => {
                let r = String::new();
                assert(r@ =~= Seq::<char>::empty());
                r
            },
        }
    }
}

/// A configuration says what the entries of its own names say, each field on its own, and
/// has the documented default where an entry is left out; without names the entries go by
/// place.
pub proof fn law_a_configuration_says_what_its_entries_say(
    entries: Seq<(document::ReadingView, document::ReadingView)>,
    list: Seq<document::ReadingView>,
)
    requires
        document::named(entries),
    ensures
        config_in(DocumentView::Table(entries)) matches Ok(c) ==> {
            &&& c.url == match document::given(entries, "url"@) {
                Some(r) => r.text->Ok_0,
                None => Seq::<char>::empty(),
            }
            &&& c.git_ref == match document::given(entries, "git_ref"@) {
                Some(r) => r.text->Ok_0,
                None => "main"@,
            }
            &&& c.include_paths == match document::given(entries, "include"@) {
                Some(r) => r.texts->Ok_0,
                None => seq!["facts/**"@, "receipts/**"@],
            }
        },
        config_in(DocumentView::List(list)) matches Ok(c) ==> {
            &&& c.url == if list.len() > 0 {
                list[0].text->Ok_0
            } else {
                Seq::<char>::empty()
            }
            &&& c.git_ref == if list.len() > 1 {
                list[1].text->Ok_0
            } else {
                "main"@
            }
            &&& c.include_paths == if list.len() > 2 {
                list[2].texts->Ok_0
            } else {
                seq!["facts/**"@, "receipts/**"@]
            }
        },
        config_in(DocumentView::Table(entries)) is Ok ==> document::given(entries, "url"@) is Some,
{
    let shape = config_shape();
    reveal_strlit("url");
    reveal_strlit("git_ref");
    reveal_strlit("include");
    assert(shape.names[0] == "url"@);
    assert(shape.names[1] == "git_ref"@);
    assert(shape.names[2] == "include"@);
    assert(shape.names.len() == 3);
    assert(shape.names[0].len() == 3);
    assert(shape.names[1].len() == 7);
    assert(shape.names[2].len() == 7);
    assert(shape.names[1][0] != shape.names[2][0]);
    assert forall|i: int, j: int| 0 <= i < j < 3 implies #[trigger] shape.names[i]
        != #[trigger] shape.names[j] by {
        assert(shape.names[i].len() != shape.names[j].len() || shape.names[i][0] != shape.names[j][0]);
    }
    assert(shape.names.no_duplicates());
    if config_in(DocumentView::Table(entries)) is Ok {
        document::law_a_field_holds_what_its_name_gives(shape, entries, 0);
        document::law_a_field_holds_what_its_name_gives(shape, entries, 1);
        document::law_a_field_holds_what_its_name_gives(shape, entries, 2);
    }
    if config_in(DocumentView::List(list)) is Ok {
        document::law_entries_without_names_go_by_place(shape, list, 0);
        document::law_entries_without_names_go_by_place(shape, list, 1);
        document::law_entries_without_names_go_by_place(shape, list, 2);
    }
}

/// A configuration is good exactly where its address and its ref are single words that
/// are no options and all of its included paths compile.
pub proof fn law_which_configurations_are_good(c: ConfigView, bad: Option<(Seq<char>, Seq<char>)>)
    ensures
        fault(c, bad) is None <==> {
            &&& c.url.len() > 0 && c.url[0] != '-' && forall|i: int|
                0 <= i < c.url.len() ==> !text::white_space(#[trigger] c.url[i])
            &&& c.git_ref.len() > 0 && c.git_ref[0] != '-' && forall|i: int|
                0 <= i < c.git_ref.len() ==> !text::white_space(#[trigger] c.git_ref[i])
            &&& bad is None
        },
        text::single_token(c.url) && text::single_token(c.git_ref) && bad is Some ==> fault(c, bad)
            == Some("include"@ + " '"@ + bad->Some_0.0 + "': "@ + bad->Some_0.1),
{
}

/// The vocabulary of a remote that has one is the first item, whole; the notes begin with
/// the commit, and say so where there is no vocabulary. All selected files are to be read.
pub proof fn law_what_a_federation_begins_with(
    head: Seq<char>,
    registry: Option<Seq<char>>,
    routes: Seq<RouteView>,
    selected: Seq<Seq<char>>,
)
    ensures
        ({
            let f = opened(head, registry, routes, selected);
            &&& f.routes == routes
            &&& f.files.pending == selected
            &&& registry is None ==> f.files.items.len() == 0 && f.files.notes.len() == 2
            &&& registry matches Some(t) ==> {
                &&& f.files.items.len() == 1 && f.files.notes.len() == 1
                &&& f.files.items[0].id == "registry"@ && f.files.items[0].kind == "registry"@
                &&& f.files.items[0].files == seq!["registry.ron"@]
                &&& f.files.items[0].content_hash == digest::sha256_text(
                    vstd::utf8::encode_utf8(t),
                )
                &&& text::ends_with(f.files.items[0].meta, "HEAD "@ + head)
                &&& f.files.items[0].version is None && f.files.items[0].locator is None
            }
            &&& f.files.notes[0] == "remote HEAD "@ + head
        }),
        remote_routes(None) == Seq::<RouteView>::empty(),
        registry matches Some(t) ==> (match registry_of(t) {
            Some(kinds) => remote_routes(registry) == routes_of(kinds),
            None => remote_routes(registry).len() == 0,
        }),
{
    reveal_strlit("the remote KB's vocabulary · HEAD ");
    reveal_strlit("HEAD ");
    if let Some(t) = registry {
        let meta = "the remote KB's vocabulary · HEAD "@ + head;
        let tail = "HEAD "@ + head;
        assert(meta.skip(meta.len() - tail.len()) =~= tail);
    }
}

/// A receipt says what was accepted and when, each off its own entry, and nothing in the
/// place of what it does not say.
pub proof fn law_a_receipt_says_what_was_accepted(
    entries: Seq<(Option<Seq<char>>, Option<Seq<char>>)>,
    slug: Seq<char>,
    at: Seq<char>,
)
    ensures
        string_at(entries, "proposal_slug"@) == Some(slug) && string_at(entries, "accepted_at"@)
            == Some(at) ==> receipt_line(entries) == "accepted '"@ + slug + "' at "@ + at,
        string_at(entries, "proposal_slug"@) is None && string_at(entries, "accepted_at"@) == Some(
            at,
        ) ==> receipt_line(entries) == "accepted '"@ + "' at "@ + at,
        string_at(entries, "proposal_slug"@) == Some(slug) && string_at(
            entries,
            "accepted_at"@,
        ) is None ==> receipt_line(entries) == "accepted '"@ + slug + "' at "@,
{
    let none = Seq::<char>::empty();
    assert("accepted '"@ + none =~= "accepted '"@);
    assert("accepted '"@ + slug + "' at "@ + none =~= "accepted '"@ + slug + "' at "@);
}

/// A federation fails for the first route that `regex_lite` does not take, or else for the
/// first included path that does not compile, and begins where there is neither.
pub proof fn law_the_first_bad_route_is_told(verdicts: Seq<Option<Seq<char>>>)
    ensures
        first_said(verdicts) is None <==> forall|i: int|
            0 <= i < verdicts.len() ==> (#[trigger] verdicts[i]) is None,
        forall|i: int|
            0 <= i < verdicts.len() && (#[trigger] verdicts[i]) is Some && (forall|j: int|
                0 <= j < i ==> (#[trigger] verdicts[j]) is None) ==> first_said(verdicts) == Some(
                "storage pattern regex: "@ + verdicts[i]->Some_0,
            ),
    decreases verdicts.len(),
{
    if verdicts.len() > 0 {
        let more = verdicts.drop_first();
        law_the_first_bad_route_is_told(more);
        assert forall|i: int| 0 <= i < more.len() implies #[trigger] more[i] == verdicts[i + 1] by {}
        assert forall|i: int|
            0 <= i < verdicts.len() && (#[trigger] verdicts[i]) is Some && (forall|j: int|
                0 <= j < i ==> (#[trigger] verdicts[j]) is None) implies first_said(verdicts)
            == Some("storage pattern regex: "@ + verdicts[i]->Some_0) by {
            if i > 0 {
                assert(verdicts[0] is None);
                assert(more[i - 1] == verdicts[i]);
                assert forall|j: int| 0 <= j < i - 1 implies (#[trigger] more[j]) is None by {
                    assert(more[j] == verdicts[j + 1]);
                }
            }
        }
        if first_said(verdicts) is None {
            assert forall|i: int| 0 <= i < verdicts.len() implies (#[trigger] verdicts[i]) is None by {
                if i > 0 {
                    assert(more[i - 1] == verdicts[i]);
                }
            }
        }
    }
}

/// A federation reads the remote's registry for its routes and the paths for its files,
/// and begins exactly where every route and every included path can be used.
pub proof fn law_a_federation_is_of_its_remote(
    included: Seq<Seq<char>>,
    head: Seq<char>,
    registry: Option<Seq<char>>,
    paths: Seq<Seq<char>>,
)
    ensures
        opening(included, head, registry, paths).routes == remote_routes(registry),
        opening(included, head, registry, paths).files.pending == remote_selection(
            paths,
            included,
        ),
        opening_error(included, registry) is None <==> (forall|i: int|
            0 <= i < remote_routes(registry).len() ==> regex_error(
                (#[trigger] remote_routes(registry)[i]).pattern,
            ) is None) && (forall|i: int|
            0 <= i < included.len() ==> patterns::glob_error(#[trigger] included[i]) is None),
{
    let routes = remote_routes(registry);
    let said = route_verdicts(routes);
    law_the_first_bad_route_is_told(said);
    let verdicts = patterns::verdicts(included);
    patterns::law_the_first_bad_pattern_is_named(included, verdicts, included[0]);
    if forall|i: int| 0 <= i < routes.len() ==> regex_error((#[trigger] routes[i]).pattern) is None {
        assert forall|i: int| 0 <= i < said.len() implies (#[trigger] said[i]) is None by {
            assert(regex_error(routes[i].pattern) is None);
        }
    }
    if forall|i: int| 0 <= i < said.len() ==> (#[trigger] said[i]) is None {
        assert forall|i: int| 0 <= i < routes.len() implies regex_error(
            (#[trigger] routes[i]).pattern,
        ) is None by {
            assert(said[i] is None);
        }
    }
    if forall|i: int| 0 <= i < included.len() ==> patterns::glob_error(#[trigger] included[i]) is None {
        assert forall|i: int| 0 <= i < verdicts.len() implies (#[trigger] verdicts[i]) is None by {
            assert(patterns::glob_error(included[i]) is None);
        }
    }
    if forall|i: int| 0 <= i < verdicts.len() ==> (#[trigger] verdicts[i]) is None {
        assert forall|i: int| 0 <= i < included.len() implies patterns::glob_error(
            #[trigger] included[i],
        ) is None by {
            assert(verdicts[i] is None);
        }
    }
}

/// A path is matched against the expression of every route, each in its own place, so
/// that a record is routed by the first route whose expression matches its path.
pub proof fn law_a_path_is_matched_against_every_route(
    routes: Seq<RouteView>,
    path: Seq<char>,
    i: int,
)
    requires
        0 <= i < routes.len(),
        regex_groups(routes[i].pattern, path) is Some,
        forall|j: int| 0 <= j < i ==> regex_groups((#[trigger] routes[j]).pattern, path) is None,
    ensures
        routed(routes, path) == Some(
            (
                routes[i].kind,
                text::joined(
                    participating(regex_groups(routes[i].pattern, path)->Some_0),
                    "/"@,
                ),
                routes[i].title,
            ),
        ),
{
    let matches = matches_of(routes, path);
    law_the_first_match_routes(routes, matches);
    assert forall|j: int| 0 <= j < i implies (#[trigger] matches[j]) is None by {
        assert(regex_groups(routes[j].pattern, path) is None);
    }
    assert(matches[i] is Some);
}

/// A record is titled by the string under its title field where its bytes are a table in
/// UTF-8, and by nothing where they are not; what a receipt says likewise.
pub proof fn law_a_title_is_read_off_the_record(bytes: Seq<u8>, field: Seq<char>)
    ensures
        match text::utf8_text(bytes) {
            Some(t) => match document::string_table(t) {
                Some(entries) => title_of(bytes, field) == string_at(entries, field)
                    && receipt_meta_of(bytes) == Some(receipt_line(entries)),
                None => title_of(bytes, field) is None && receipt_meta_of(bytes) is None,
            },
            None => title_of(bytes, field) is None && receipt_meta_of(bytes) is None,
        },
{
}

/// What is stated of a configuration, of a kind of the remote and of its route is stated
/// of their own fields.
pub proof fn law_a_configuration_is_its_fields(c: Config, k: RemoteKind, r: Route)
    ensures
        c.deep_view().url == c.url@,
        c.deep_view().git_ref == c.git_ref@,
        c.deep_view().include_paths == c.include_paths.deep_view(),
        k.deep_view().name == k.name@,
        k.deep_view().storage == k.storage@,
        k.deep_view().title == k.title.deep_view(),
        r.deep_view().kind == r.kind@,
        r.deep_view().pattern == r.pattern@,
        r.deep_view().title == r.title.deep_view(),
{
}

} // verus!
