//! Glob patterns.

use vstd::prelude::*;

verus! {

/// What the `glob` crate says against a pattern, nothing where it takes it.
pub uninterp spec fn glob_error(pattern: Seq<char>) -> Option<Seq<char>>;

/// `glob::Pattern::new`, by its error. Claimed: whether a pattern is taken, and
/// the message where it is not, depend on the pattern alone.
#[verifier::external_body]
fn pattern_error(pattern: &str) -> (r: Option<String>)
    ensures
        r.deep_view() == glob_error(pattern@),
{
    glob::Pattern::new(pattern).err().map(|e| e.to_string())
}

/// How patterns match.
#[derive(Clone, Copy, PartialEq, Eq, Structural)]
pub struct Matching {
    pub case_sensitive: bool,
    /// Only a literal `/` matches a `/`: `*` stays within one level.
    pub literal_separator: bool,
    /// A leading `.` is matched only by a literal one.
    pub literal_leading_dot: bool,
}

/// Path-aware matching: `*` stays within one directory level, `**` crosses
/// levels, and a dotfile matches only where the pattern says so.
pub open spec fn path_aware() -> Matching {
    Matching { case_sensitive: false, literal_separator: true, literal_leading_dot: true }
}

/// Matching over the whole path: `*` crosses levels, dotfiles are no
/// exception.
pub open spec fn whole_path() -> Matching {
    Matching { case_sensitive: true, literal_separator: false, literal_leading_dot: false }
}

/// Whether the `glob` crate matches a path with a pattern.
pub uninterp spec fn glob_match(pattern: Seq<char>, path: Seq<char>, matching: Matching) -> bool;

/// `glob::Pattern::matches_with` on the compiled pattern. Claimed: the answer
/// depends on the pattern, the path and the options alone, and a pattern that
/// does not compile matches nothing.
#[verifier::external_body]
fn pattern_matches(pattern: &str, path: &str, matching: Matching) -> (r: bool)
    ensures
        r == glob_match(pattern@, path@, matching),
        glob_error(pattern@) is Some ==> !r,
{
    let options = glob::MatchOptions {
        case_sensitive: matching.case_sensitive,
        require_literal_separator: matching.literal_separator,
        require_literal_leading_dot: matching.literal_leading_dot,
    };
    match glob::Pattern::new(pattern) {
        Ok(p) => p.matches_with(path, options),
        Err(_) => false,
    }
}

/// Whether one of the patterns matches the path.
pub open spec fn selects(patterns: Seq<Seq<char>>, path: Seq<char>, matching: Matching) -> bool {
    exists|i: int| 0 <= i < patterns.len() && #[trigger] glob_match(patterns[i], path, matching)
}

/// Whether one of the patterns matches the path.
pub fn is_selected(patterns: &Vec<String>, path: &str, matching: Matching) -> (r: bool)
    ensures
        r == selects(patterns.deep_view(), path@, matching),
{
    let mut i: usize = 0;
    let ghost all = patterns.deep_view();
    while i < patterns.len()
        invariant
            i <= patterns.len(),
            all == patterns.deep_view(),
            forall|j: int| 0 <= j < i ==> !#[trigger] glob_match(all[j], path@, matching),
        decreases patterns.len() - i,
    {
        assert(all[i as int] == patterns@[i as int]@);
        if pattern_matches(patterns[i].as_str(), path, matching) {
            return true;
        }
        i += 1;
    }
    false
}

/// What `glob` says against each pattern.
pub open spec fn verdicts(patterns: Seq<Seq<char>>) -> Seq<Option<Seq<char>>> {
    Seq::new(patterns.len(), |i: int| glob_error(patterns[i]))
}

/// The first pattern with something said against it, and what is said.
pub open spec fn first_refused(
    patterns: Seq<Seq<char>>,
    verdicts: Seq<Option<Seq<char>>>,
) -> Option<(Seq<char>, Seq<char>)>
    decreases patterns.len(),
{
    if patterns.len() == 0 || verdicts.len() == 0 {
        None
    } else {
        match verdicts[0] {
            Some(e) => Some((patterns[0], e)),
            None => first_refused(patterns.drop_first(), verdicts.drop_first()),
        }
    }
}

/// The first pattern that does not compile, with the message of `glob`.
pub open spec fn bad_pattern(patterns: Seq<Seq<char>>) -> Option<(Seq<char>, Seq<char>)> {
    first_refused(patterns, verdicts(patterns))
}

/// `<label> '<pattern>': <error>`.
pub open spec fn refusal(label: Seq<char>, bad: Option<(Seq<char>, Seq<char>)>) -> Option<
    Seq<char>,
> {
    match bad {
        Some((p, e)) => Some(label + " '"@ + p + "': "@ + e),
        None => None,
    }
}

/// `<label> '<pattern>': <error>` of the first pattern that does not compile.
pub open spec fn patterns_error(label: Seq<char>, patterns: Seq<Seq<char>>) -> Option<Seq<char>> {
    refusal(label, bad_pattern(patterns))
}

/// What `glob` says against each pattern.
fn judge_patterns(patterns: &Vec<String>) -> (r: Vec<Option<String>>)
    ensures
        r.deep_view() == verdicts(patterns.deep_view()),
{
    let mut r: Vec<Option<String>> = Vec::new();
    let mut i: usize = 0;
    let ghost all = verdicts(patterns.deep_view());
    assert(r.deep_view() =~= all.take(0));
    while i < patterns.len()
        invariant
            i <= patterns.len(),
            all == verdicts(patterns.deep_view()),
            r.deep_view() == all.take(i as int),
        decreases patterns.len() - i,
    {
        let ghost before = r.deep_view();
        assert(patterns.deep_view()[i as int] == patterns@[i as int]@);
        let verdict = pattern_error(patterns[i].as_str());
        r.push(verdict);
        assert(r.deep_view() =~= before.push(verdict.deep_view()));
        i += 1;
        assert(r.deep_view() =~= all.take(i as int));
    }
    assert(all.take(i as int) =~= all);
    r
}

/// The first pattern with something said against it, and what is said.
pub fn pick_refused(patterns: &Vec<String>, verdicts: &Vec<Option<String>>) -> (r: Option<
    (String, String),
>)
    ensures
        r.deep_view() == first_refused(patterns.deep_view(), verdicts.deep_view()),
{
    let mut i: usize = 0;
    let ghost all = patterns.deep_view();
    let ghost said = verdicts.deep_view();
    assert(all.skip(0) =~= all && said.skip(0) =~= said);
    while i < patterns.len() && i < verdicts.len()
        invariant
            i <= patterns.len(),
            i <= verdicts.len(),
            all == patterns.deep_view(),
            said == verdicts.deep_view(),
            first_refused(all, said) == first_refused(all.skip(i as int), said.skip(i as int)),
        decreases patterns.len() - i,
    {
        assert(all.skip(i as int)[0] == patterns@[i as int]@);
        assert(said.skip(i as int)[0] == verdicts@[i as int].deep_view());
        assert(all.skip(i as int).drop_first() =~= all.skip(i + 1));
        assert(said.skip(i as int).drop_first() =~= said.skip(i + 1));
        if let Some(e) = &verdicts[i] {
            return Some((patterns[i].clone(), e.clone()));
        }
        i += 1;
    }
    None
}

/// The first pattern that does not compile, with the message of `glob`.
pub fn find_bad(patterns: &Vec<String>) -> (r: Option<(String, String)>)
    ensures
        r.deep_view() == bad_pattern(patterns.deep_view()),
{
    let verdicts = judge_patterns(patterns);
    pick_refused(patterns, &verdicts)
}

/// `<label> '<pattern>': <error>`.
pub fn refuse(label: &str, bad: &Option<(String, String)>) -> (r: Option<String>)
    ensures
        r.deep_view() == refusal(label@, bad.deep_view()),
{
    match bad {
        Some((p, e)) => Some(
            label.to_string().concat(" '").concat(p.as_str()).concat("': ").concat(e.as_str()),
        ),
        None => None,
    }
}

/// Refuses patterns that do not compile, naming the first of them.
pub fn check_patterns(label: &str, patterns: &Vec<String>) -> (r: Option<String>)
    ensures
        r.deep_view() == patterns_error(label@, patterns.deep_view()),
{
    refuse(label, &find_bad(patterns))
}

/// A path is selected by any pattern that matches it, wherever it stands among them, and
/// by nothing else.
pub proof fn law_any_pattern_selects(
    before: Seq<Seq<char>>,
    pattern: Seq<char>,
    behind: Seq<Seq<char>>,
    path: Seq<char>,
    matching: Matching,
)
    ensures
        selects(before + seq![pattern] + behind, path, matching) <==> selects(
            before,
            path,
            matching,
        ) || glob_match(pattern, path, matching) || selects(behind, path, matching),
        !selects(Seq::empty(), path, matching),
{
    let all = before + seq![pattern] + behind;
    let n = before.len() as int;
    assert(all[n] == pattern);
    if selects(all, path, matching) {
        let i = choose|i: int|
            0 <= i < all.len() && #[trigger] glob_match(all[i], path, matching);
        if i < n {
            assert(before[i] == all[i]);
        } else if i > n {
            assert(behind[i - n - 1] == all[i]);
        }
    }
    if selects(before, path, matching) {
        let i = choose|i: int|
            0 <= i < before.len() && #[trigger] glob_match(before[i], path, matching);
        assert(all[i] == before[i]);
    }
    if selects(behind, path, matching) {
        let i = choose|i: int|
            0 <= i < behind.len() && #[trigger] glob_match(behind[i], path, matching);
        assert(all[n + 1 + i] == behind[i]);
    }
    if glob_match(pattern, path, matching) {
        assert(glob_match(all[n], path, matching));
    }
}

/// Patterns are refused exactly where something is said against one of them, and then by
/// the first of these and what is said against it.
pub proof fn law_the_first_bad_pattern_is_named(
    patterns: Seq<Seq<char>>,
    verdicts: Seq<Option<Seq<char>>>,
    label: Seq<char>,
)
    requires
        patterns.len() == verdicts.len(),
    ensures
        first_refused(patterns, verdicts) is None <==> forall|i: int|
            0 <= i < verdicts.len() ==> (#[trigger] verdicts[i]) is None,
        forall|i: int|
            0 <= i < verdicts.len() && (#[trigger] verdicts[i]) is Some && (forall|j: int|
                0 <= j < i ==> (#[trigger] verdicts[j]) is None) ==> first_refused(
                patterns,
                verdicts,
            ) == Some((patterns[i], verdicts[i]->Some_0)),
        refusal(label, first_refused(patterns, verdicts)) is None <==> first_refused(
            patterns,
            verdicts,
        ) is None,
        first_refused(patterns, verdicts) matches Some((p, e)) ==> refusal(
            label,
            first_refused(patterns, verdicts),
        ) == Some(label + " '"@ + p + "': "@ + e),
    decreases patterns.len(),
{
    if patterns.len() > 0 {
        let more = verdicts.drop_first();
        law_the_first_bad_pattern_is_named(patterns.drop_first(), more, label);
        assert forall|i: int| 0 <= i < more.len() implies #[trigger] more[i] == verdicts[i + 1] by {}
        assert forall|i: int|
            0 <= i < verdicts.len() && (#[trigger] verdicts[i]) is Some && (forall|j: int|
                0 <= j < i ==> (#[trigger] verdicts[j]) is None) implies first_refused(
            patterns,
            verdicts,
        ) == Some((patterns[i], verdicts[i]->Some_0)) by {
            if i > 0 {
                assert(verdicts[0] is None);
                assert(more[i - 1] == verdicts[i]);
                assert forall|j: int| 0 <= j < i - 1 implies (#[trigger] more[j]) is None by {
                    assert(more[j] == verdicts[j + 1]);
                }
                assert(patterns.drop_first()[i - 1] == patterns[i]);
            }
        }
        if first_refused(patterns, verdicts) is None {
            assert forall|i: int| 0 <= i < verdicts.len() implies (#[trigger] verdicts[i]) is None by {
                if i > 0 {
                    assert(more[i - 1] == verdicts[i]);
                }
            }
        }
    }
}

/// What is said against each pattern is what `glob` says against it, and the two ways of
/// matching are as they are called: path-aware, `*` stays within a level, a leading dot
/// is matched by a dot alone and case does not matter; over the whole path none of that.
pub proof fn law_how_patterns_match(patterns: Seq<Seq<char>>, i: int)
    requires
        0 <= i < patterns.len(),
    ensures
        verdicts(patterns).len() == patterns.len(),
        verdicts(patterns)[i] == glob_error(patterns[i]),
        path_aware().literal_separator && path_aware().literal_leading_dot
            && !path_aware().case_sensitive,
        !whole_path().literal_separator && !whole_path().literal_leading_dot
            && whole_path().case_sensitive,
{
}

} // verus!
