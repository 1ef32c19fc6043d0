//! A shared folder: its walk, and which of its files are read.
//!
//! A file's identity is that of its drive item, which survives renames and moves.
//! Its path rides along.

use vstd::prelude::*;
use crate::digest;
use crate::digest::sha256_hex;
use crate::document;
use crate::document::one_text;
use crate::graph::records::{DriveItem, DriveItemView};
use crate::graph::sharepoint;
use crate::graph::sharepoint::{
    compile_patterns, meta_text, parse_version_map, rel_matches, serialize_version_map, SpConfig,
    SpConfigView,
};
use crate::graph::urls;
use crate::graph::urls::drive_item_children_url;
use crate::lists::{filtered, reversed};
use crate::patterns;
use crate::plugin::{FetchResult, Item, ItemView};
use crate::sorting;
use crate::sorting::{sort, Ranked};
use crate::text;
use crate::text::{decimal, join, less_text, same_text};
use crate::textmap::TextMap;
use crate::tree;

verus! {

/// A file of the folder, with its path below the folder.
pub struct Found {
    pub item: DriveItem,
    pub rel: String,
}

#[verifier::ext_equal]
pub struct FoundView {
    pub item: DriveItemView,
    pub rel: Seq<char>,
}

impl DeepView for Found {
    type V = FoundView;

    open spec fn deep_view(&self) -> FoundView {
        FoundView { item: self.item.deep_view(), rel: self.rel@ }
    }
}

impl Ranked for Found {
    /// By path.
    open spec fn precedes(a: FoundView, b: FoundView) -> bool {
        text::text_less(a.rel, b.rel)
    }

    fn is_before(&self, other: &Self) -> (r: bool) {
        less_text(self.rel.as_str(), other.rel.as_str())
    }

    proof fn precedence(a: FoundView, b: FoundView, c: FoundView) {
        text::lemma_text_order(a.rel, b.rel);
        text::lemma_text_order_transitive(a.rel, b.rel, c.rel);
    }
}

// The walk.

/// A walk over a folder, depth first: the folders still to be listed, and the
/// files found.
pub struct FolderWalk {
    drive_id: String,
    stack: Vec<(String, String)>,
    prefix: String,
    found: Vec<Found>,
}

#[verifier::ext_equal]
pub struct FolderWalkView {
    pub drive_id: Seq<char>,
    /// The folders still to be listed, each with its path, the next one last.
    pub stack: Seq<(Seq<char>, Seq<char>)>,
    /// The path of the folder being listed.
    pub prefix: Seq<char>,
    pub found: Seq<FoundView>,
}

impl View for FolderWalk {
    type V = FolderWalkView;

    closed spec fn view(&self) -> FolderWalkView {
        FolderWalkView {
            drive_id: self.drive_id@,
            stack: self.stack.deep_view(),
            prefix: self.prefix@,
            found: self.found.deep_view(),
        }
    }
}

/// The path of a child of the folder at `prefix`.
pub open spec fn child_path(prefix: Seq<char>, name: Seq<char>) -> Seq<char> {
    if prefix.len() == 0 {
        name
    } else {
        prefix + "/"@ + name
    }
}

impl FolderWalkView {
    /// After one child of the folder being listed: a folder is to be listed too, a
    /// file was found.
    pub open spec fn with_child(self, child: DriveItemView) -> Result<FolderWalkView, Seq<char>> {
        let rel = child_path(self.prefix, child.name);
        if child.folder {
            match child.id {
                Some(id) => Ok(FolderWalkView { stack: self.stack.push((id, rel)), ..self }),
                None => Err("folder '"@ + rel + "' has no Graph id"@),
            }
        } else {
            Ok(FolderWalkView { found: self.found.push(FoundView { item: child, rel }), ..self })
        }
    }

    /// After all children of the folder being listed.
    pub open spec fn with_children(self, children: Seq<DriveItemView>) -> Result<
        FolderWalkView,
        Seq<char>,
    >
        decreases children.len(),
    {
        if children.len() == 0 {
            Ok(self)
        } else {
            match self.with_child(children[0]) {
                Ok(next) => next.with_children(children.drop_first()),
                Err(e) => Err(e),
            }
        }
    }
}

/// A walk before its first listing.
pub open spec fn walk_opening(drive_id: Seq<char>, root: Seq<char>) -> FolderWalkView {
    FolderWalkView {
        drive_id,
        stack: seq![(root, Seq::empty())],
        prefix: Seq::empty(),
        found: Seq::empty(),
    }
}

/// A walk begins with the shared folder itself to be listed, at the empty path, and with
/// nothing found.
pub proof fn law_a_walk_begins_at_the_shared_folder(drive_id: Seq<char>, root: Seq<char>)
    ensures
        walk_opening(drive_id, root).drive_id == drive_id,
        walk_opening(drive_id, root).stack.len() == 1,
        walk_opening(drive_id, root).stack[0].0 == root,
        walk_opening(drive_id, root).stack[0].1.len() == 0,
        walk_opening(drive_id, root).found.len() == 0,
{
}

/// Why a folder cannot be walked, if so.
pub open spec fn walk_error(sp: SpConfigView, root: DriveItemView) -> Option<Seq<char>> {
    if root.drive_id is None {
        Some("folder share carries no driveId — cannot list children"@)
    } else if root.id is None {
        Some("folder share carries no item id — cannot list children"@)
    } else {
        patterns::patterns_error("pattern"@, sp.patterns)
    }
}

pub open spec fn walk_result(r: Result<FolderWalk, String>) -> Result<FolderWalkView, Seq<char>> {
    match r {
        Ok(w) => Ok(w@),
        Err(e) => Err(e@),
    }
}

impl FolderWalk {
    /// A walk from the shared folder itself.
    pub fn begin(sp: &SpConfig, root: &DriveItem) -> (r: Result<FolderWalk, String>)
        ensures
            walk_result(r) == (match walk_error(sp.deep_view(), root.deep_view()) {
                Some(e) => Err(e),
                None => Ok(
                    FolderWalkView {
                        drive_id: root.deep_view().drive_id->Some_0,
                        stack: seq![(root.deep_view().id->Some_0, Seq::empty())],
                        prefix: Seq::empty(),
                        found: Seq::empty(),
                    },
                ),
            }),
            r matches Ok(w) ==> w@ == walk_opening(
                root.deep_view().drive_id->Some_0,
                root.deep_view().id->Some_0,
            ),
    {
        let drive: Option<String> = match &root.parent_reference {
            Some(p) => p.drive_id.clone(),
            None => None,
        };
        let drive_id = match drive {
            Some(d) => d,
            None => {
                return Err(
                    "folder share carries no driveId — cannot list children".to_string(),
                );
            },
        };
        let root_id = match &root.id {
            Some(i) => i.clone(),
            None => {
                return Err(
                    "folder share carries no item id — cannot list children".to_string(),
                );
            },
        };
        if let Err(e) = compile_patterns(&sp.patterns) {
            return Err(e);
        }
        let empty = String::new();
        assert(empty@ =~= Seq::<char>::empty());
        let mut stack: Vec<(String, String)> = Vec::new();
        stack.push((root_id, empty.clone()));
        let w = FolderWalk { drive_id, stack, prefix: empty, found: Vec::new() };
        assert(w.stack.deep_view() =~= seq![(root_id@, Seq::<char>::empty())]);
        assert(w.found.deep_view() =~= Seq::<FoundView>::empty());
        Ok(w)
    }

    /// The address of the children of the folder to be listed next, if any is
    /// left. That folder is then the one being listed.
    pub fn next_folder(&mut self) -> (r: Option<String>)
        ensures
            match r {
                Some(u) => {
                    let (id, prefix) = old(self)@.stack.last();
                    &&& old(self)@.stack.len() > 0
                    &&& u@ == urls::children_address(old(self)@.drive_id, id)
                    &&& final(self)@ == (FolderWalkView {
                        stack: old(self)@.stack.drop_last(),
                        prefix,
                        ..old(self)@
                    })
                },
                None => old(self)@.stack.len() == 0 && final(self)@ == old(self)@,
            },
    {
        let ghost before = self.stack.deep_view();
        match self.stack.pop() {
            Some((id, prefix)) => {
                assert((id@, prefix@) == before.last());
                assert(self.stack.deep_view() =~= before.drop_last());
                self.prefix = prefix;
                Some(drive_item_children_url(self.drive_id.as_str(), id.as_str()))
            },
            None => None,
        }
    }

    /// Takes the children of the folder being listed.
    pub fn children(self, children: Vec<DriveItem>) -> (r: Result<FolderWalk, String>)
        ensures
            walk_result(r) == self@.with_children(children.deep_view()),
    {
        let ghost start = self@;
        let mut w = self;
        let mut rest = children;
        while rest.len() > 0
            invariant
                start == self@,
                start.with_children(children.deep_view()) == w@.with_children(rest.deep_view()),
            decreases rest.len(),
        {
            let ghost left = rest.deep_view();
            let ghost stack = w.stack.deep_view();
            let ghost found = w.found.deep_view();
            let ghost now = w@;
            let child = rest.remove(0);
            assert(child.deep_view() == left[0]);
            assert(rest.deep_view() =~= left.drop_first());
            let rel = if w.prefix.as_str().unicode_len() == 0 {
                child.name.clone()
            } else {
                w.prefix.clone().concat("/").concat(child.name.as_str())
            };
            assert(rel@ == child_path(now.prefix, child.name@));
            if child.folder.is_some() {
                match child.id {
                    Some(id) => {
                        w.stack.push((id, rel));
                        assert(w.stack.deep_view() =~= stack.push((id@, rel@)));
                    },
                    None => {
                        return Err(
                            "folder '".to_string().concat(rel.as_str()).concat(
                                "' has no Graph id",
                            ),
                        );
                    },
                }
            } else {
                let f = Found { item: child, rel };
                w.found.push(f);
                assert(w.found.deep_view() =~= found.push(f.deep_view()));
            }
            assert(now.with_child(left[0]) == Ok::<FolderWalkView, Seq<char>>(w@));
        }
        Ok(w)
    }

    /// The files found, ordered by their paths.
    pub fn finish(self) -> (r: Vec<Found>)
        ensures
            r.deep_view() == sorting::sorted::<Found>(self@.found),
    {
        sort(self.found)
    }
}

/// The identity of the folder at the end of a way down from the shared folder, which
/// takes one child at each folder by its place; nothing where the way leads to none.
pub open spec fn folder_at(
    children: spec_fn(Seq<char>) -> Seq<DriveItemView>,
    root: Seq<char>,
    way: Seq<int>,
) -> Option<Seq<char>>
    decreases way.len(),
{
    if way.len() == 0 {
        Some(root)
    } else {
        match folder_at(children, root, way.drop_last()) {
            None => None,
            Some(parent) => {
                let i = way.last();
                if 0 <= i < children(parent).len() && children(parent)[i].folder {
                    children(parent)[i].id
                } else {
                    None
                }
            },
        }
    }
}

/// The file at the end of a way down from the shared folder, nothing where the way
/// leads to none.
pub open spec fn file_at(
    children: spec_fn(Seq<char>) -> Seq<DriveItemView>,
    root: Seq<char>,
    way: Seq<int>,
) -> Option<DriveItemView> {
    if way.len() == 0 {
        None
    } else {
        match folder_at(children, root, way.drop_last()) {
            None => None,
            Some(parent) => {
                let i = way.last();
                if 0 <= i < children(parent).len() && !children(parent)[i].folder {
                    Some(children(parent)[i])
                } else {
                    None
                }
            },
        }
    }
}

/// The names on a way down from the shared folder, from the top.
pub open spec fn names_on(
    children: spec_fn(Seq<char>) -> Seq<DriveItemView>,
    root: Seq<char>,
    way: Seq<int>,
) -> Seq<Seq<char>>
    decreases way.len(),
{
    if way.len() == 0 {
        Seq::empty()
    } else {
        match folder_at(children, root, way.drop_last()) {
            None => Seq::empty(),
            Some(parent) => names_on(children, root, way.drop_last()).push(
                children(parent)[way.last()].name,
            ),
        }
    }
}

/// A walk after so many folders were listed, where it got so far; `children` says what
/// the folder of an identity holds.
pub open spec fn walked(
    w: FolderWalkView,
    children: spec_fn(Seq<char>) -> Seq<DriveItemView>,
    n: nat,
) -> Option<FolderWalkView>
    decreases n,
{
    if n == 0 {
        Some(w)
    } else {
        match walked(w, children, (n - 1) as nat) {
            Some(v) => if v.stack.len() > 0 {
                let (id, prefix) = v.stack.last();
                match (FolderWalkView {
                    stack: v.stack.drop_last(),
                    prefix,
                    ..v
                }).with_children(children(id)) {
                    Ok(next) => Some(next),
                    Err(_) => None,
                }
            } else {
                None
            },
            None => None,
        }
    }
}

/// What was found is one file for each of these ways, under the names on that way
/// joined by `/`, and these are all ways that lead to a file, each once.
pub open spec fn found_along(
    children: spec_fn(Seq<char>) -> Seq<DriveItemView>,
    root: Seq<char>,
    found: Seq<FoundView>,
    ways: Seq<Seq<int>>,
) -> bool {
    &&& ways.len() == found.len()
    &&& ways.no_duplicates()
    &&& forall|way: Seq<int>| #[trigger]
        ways.contains(way) <==> file_at(children, root, way) is Some
    &&& forall|i: int|
        0 <= i < found.len() ==> Some((#[trigger] found[i]).item) == file_at(
            children,
            root,
            ways[i],
        ) && found[i].rel == text::joined(names_on(children, root, ways[i]), "/"@)
}

/// Whether a way goes through the end of another.
spec fn through(way: Seq<int>, other: Seq<int>) -> bool {
    other.len() <= way.len() && way.take(other.len() as int) == other
}

/// What holds of a walk between two listings: `ways` lead to the files found, `open` to
/// the folders still to be listed.
spec fn on_the_way(
    children: spec_fn(Seq<char>) -> Seq<DriveItemView>,
    root: Seq<char>,
    w: FolderWalkView,
    ways: Seq<Seq<int>>,
    open: Seq<Seq<int>>,
) -> bool {
    &&& ways.len() == w.found.len()
    &&& open.len() == w.stack.len()
    &&& ways.no_duplicates()
    &&& forall|i: int|
        0 <= i < ways.len() ==> file_at(children, root, #[trigger] ways[i]) == Some(w.found[i].item)
            && w.found[i].rel == text::joined(names_on(children, root, ways[i]), "/"@)
    &&& forall|k: int|
        0 <= k < open.len() ==> folder_at(children, root, #[trigger] open[k]) == Some(w.stack[k].0)
            && w.stack[k].1 == text::joined(names_on(children, root, open[k]), "/"@)
    &&& forall|j: int, k: int|
        0 <= j < open.len() && 0 <= k < open.len() && j != k ==> !#[trigger] through(
            open[j],
            open[k],
        )
    &&& forall|i: int, k: int|
        0 <= i < ways.len() && 0 <= k < open.len() ==> !#[trigger] through(ways[i], open[k])
}

/// Every way to a file was taken or goes through a folder still to be listed.
spec fn nothing_lost(
    children: spec_fn(Seq<char>) -> Seq<DriveItemView>,
    root: Seq<char>,
    ways: Seq<Seq<int>>,
    open: Seq<Seq<int>>,
) -> bool {
    forall|way: Seq<int>| #[trigger]
        file_at(children, root, way) is Some ==> ways.contains(way) || exists|k: int|
            0 <= k < open.len() && #[trigger] through(way, open[k])
}

/// What holds of a walk while it lists the folder at the end of `at`, of whose children
/// the first `c` were dealt with.
spec fn listing(
    children: spec_fn(Seq<char>) -> Seq<DriveItemView>,
    root: Seq<char>,
    w: FolderWalkView,
    ways: Seq<Seq<int>>,
    open: Seq<Seq<int>>,
    at: Seq<int>,
    c: int,
) -> bool {
    &&& on_the_way(children, root, w, ways, open)
    &&& folder_at(children, root, at) is Some
    &&& w.prefix == text::joined(names_on(children, root, at), "/"@)
    &&& forall|i: int|
        0 <= i < ways.len() && #[trigger] through(ways[i], at) ==> ways[i].len() > at.len()
            && ways[i][at.len() as int] < c
    &&& forall|k: int|
        0 <= k < open.len() ==> !#[trigger] through(at, open[k])
    &&& forall|k: int|
        0 <= k < open.len() && #[trigger] through(open[k], at) ==> open[k].len() > at.len()
            && open[k][at.len() as int] < c
    &&& forall|way: Seq<int>| #[trigger]
        file_at(children, root, way) is Some ==> ways.contains(way) || (exists|k: int|
            0 <= k < open.len() && #[trigger] through(way, open[k])) || (through(way, at)
            && way.len() > at.len() && way[at.len() as int] >= c)
}

proof fn lemma_folders_above(
    children: spec_fn(Seq<char>) -> Seq<DriveItemView>,
    root: Seq<char>,
    way: Seq<int>,
    n: int,
)
    requires
        0 <= n <= way.len(),
        folder_at(children, root, way) is Some,
    ensures
        folder_at(children, root, way.take(n)) is Some,
    decreases way.len(),
{
    if n < way.len() {
        lemma_folders_above(children, root, way.drop_last(), n);
        assert(way.drop_last().take(n) =~= way.take(n));
    } else {
        assert(way.take(n) =~= way);
    }
}

proof fn lemma_names_joined(
    children: spec_fn(Seq<char>) -> Seq<DriveItemView>,
    root: Seq<char>,
    way: Seq<int>,
)
    requires
        folder_at(children, root, way) is Some,
        forall|id: Seq<char>, i: int|
            0 <= i < children(id).len() ==> (#[trigger] children(id)[i]).name.len() > 0,
    ensures
        names_on(children, root, way).len() == way.len(),
        text::joined(names_on(children, root, way), "/"@).len() == 0 <==> way.len() == 0,
    decreases way.len(),
{
    if way.len() > 0 {
        let above = way.drop_last();
        lemma_names_joined(children, root, above);
        let parent = folder_at(children, root, above)->Some_0;
        let names = names_on(children, root, way);
        assert(children(parent)[way.last()].name.len() > 0);
        assert(names.drop_last() =~= names_on(children, root, above));
    }
}

proof fn lemma_named_child(names: Seq<Seq<char>>, name: Seq<char>)
    requires
        text::joined(names, "/"@).len() == 0 <==> names.len() == 0,
    ensures
        child_path(text::joined(names, "/"@), name) == text::joined(names.push(name), "/"@),
{
    assert(names.push(name).drop_last() =~= names);
}

proof fn lemma_listing(
    children: spec_fn(Seq<char>) -> Seq<DriveItemView>,
    root: Seq<char>,
    w: FolderWalkView,
    ways: Seq<Seq<int>>,
    open: Seq<Seq<int>>,
    at: Seq<int>,
    c: int,
) -> (r: (Seq<Seq<int>>, Seq<Seq<int>>))
    requires
        forall|id: Seq<char>, i: int|
            0 <= i < children(id).len() ==> (#[trigger] children(id)[i]).name.len() > 0,
        listing(children, root, w, ways, open, at, c),
        0 <= c <= children(folder_at(children, root, at)->Some_0).len(),
        w.with_children(children(folder_at(children, root, at)->Some_0).skip(c)) is Ok,
    ensures
        on_the_way(
            children,
            root,
            w.with_children(children(folder_at(children, root, at)->Some_0).skip(c))->Ok_0,
            r.0,
            r.1,
        ),
        nothing_lost(children, root, r.0, r.1),
    decreases children(folder_at(children, root, at)->Some_0).len() - c,
{
    let id = folder_at(children, root, at)->Some_0;
    let all = children(id);
    let n = at.len() as int;
    if c == all.len() {
        assert forall|way: Seq<int>| #[trigger] file_at(children, root, way) is Some implies
            ways.contains(way) || exists|k: int|
            0 <= k < open.len() && #[trigger] through(way, open[k]) by {
            if through(way, at) && way.len() > n && way[n] >= c {
                if way.len() > n + 1 {
                    lemma_folders_above(children, root, way.drop_last(), n + 1);
                    assert(way.drop_last().take(n + 1) =~= way.take(n + 1));
                }
                assert(way.take(n + 1).drop_last() =~= at);
                assert(way.take(n + 1).last() == way[n]);
                if way.len() == n + 1 {
                    assert(way.take(n + 1) =~= way);
                }
            }
        }
        (ways, open)
    } else {
        let child = all[c];
        let here = at.push(c);
        assert(here.drop_last() =~= at);
        assert(all.skip(c)[0] == child);
        assert(all.skip(c).drop_first() =~= all.skip(c + 1));
        lemma_names_joined(children, root, at);
        lemma_named_child(names_on(children, root, at), child.name);
        assert(names_on(children, root, here) == names_on(children, root, at).push(child.name));
        let rel = child_path(w.prefix, child.name);
        assert forall|i: int| 0 <= i < ways.len() implies !through(#[trigger] ways[i], here) by {
            if through(ways[i], here) {
                assert(ways[i].take(n) =~= here.take(n));
                assert(here.take(n) =~= at);
                assert(through(ways[i], at));
                assert(ways[i][n] == here[n]);
            }
        }
        assert forall|k: int| 0 <= k < open.len() implies !through(#[trigger] open[k], here)
            && !through(here, open[k]) by {
            if through(open[k], here) {
                assert(open[k].take(n) =~= here.take(n));
                assert(here.take(n) =~= at);
                assert(through(open[k], at));
                assert(open[k][n] == here[n]);
            }
            if through(here, open[k]) {
                if open[k].len() <= n {
                    assert(at.take(open[k].len() as int) =~= here.take(open[k].len() as int));
                    assert(through(at, open[k]));
                } else {
                    assert(here.take(n + 1) =~= here);
                    assert(open[k].take(n) =~= at);
                    assert(through(open[k], at));
                }
            }
        }
        assert(through(here, at)) by {
            assert(here.take(n) =~= at);
        }
        let next = w.with_child(child)->Ok_0;
        if child.folder {
            let more = open.push(here);
            assert(folder_at(children, root, here) == child.id);
            assert forall|way: Seq<int>| #[trigger] file_at(children, root, way) is Some implies
                ways.contains(way) || (exists|k: int|
                0 <= k < more.len() && #[trigger] through(way, more[k])) || (through(way, at)
                && way.len() > n && way[n] >= c + 1) by {
                if through(way, at) && way.len() > n && way[n] == c {
                    assert(way.take(n + 1) =~= here);
                    assert(through(way, more[open.len() as int]));
                } else if exists|k: int| 0 <= k < open.len() && #[trigger] through(way, open[k]) {
                    let k = choose|k: int| 0 <= k < open.len() && #[trigger] through(way, open[k]);
                    assert(through(way, more[k]));
                }
            }
            assert forall|j: int, k: int|
                0 <= j < more.len() && 0 <= k < more.len() && j != k implies !#[trigger] through(
                more[j],
                more[k],
            ) by {
                if j < open.len() && k < open.len() {
                    assert(!through(open[j], open[k]));
                } else if j < open.len() {
                    assert(!through(open[j], here));
                } else {
                    assert(!through(here, open[k]));
                }
            }
            assert forall|i: int, k: int| 0 <= i < ways.len() && 0 <= k < more.len() implies
                !#[trigger] through(ways[i], more[k]) by {
                if k < open.len() {
                    assert(!through(ways[i], open[k]));
                } else {
                    assert(!through(ways[i], here));
                }
            }
            assert forall|k: int| 0 <= k < more.len() implies !#[trigger] through(at, more[k]) by {
                if k < open.len() {
                    assert(!through(at, open[k]));
                }
            }
            assert forall|k: int| 0 <= k < more.len() && #[trigger] through(more[k], at) implies
                more[k].len() > at.len() && more[k][n] < c + 1 by {
                if k < open.len() {
                    assert(through(open[k], at));
                }
            }
            assert forall|k: int| 0 <= k < more.len() implies folder_at(
                children,
                root,
                #[trigger] more[k],
            ) == Some(next.stack[k].0) && next.stack[k].1 == text::joined(
                names_on(children, root, more[k]),
                "/"@,
            ) by {
                if k < open.len() {
                    assert(more[k] == open[k]);
                }
            }
            assert(listing(children, root, next, ways, more, at, c + 1));
            lemma_listing(children, root, next, ways, more, at, c + 1)
        } else {
            let more = ways.push(here);
            assert(file_at(children, root, here) == Some(child));
            assert(folder_at(children, root, here) is None);
            assert forall|way: Seq<int>| #[trigger] file_at(children, root, way) is Some implies
                more.contains(way) || (exists|k: int|
                0 <= k < open.len() && #[trigger] through(way, open[k])) || (through(way, at)
                && way.len() > n && way[n] >= c + 1) by {
                if through(way, at) && way.len() > n && way[n] == c {
                    assert(way.take(n + 1) =~= here);
                    if way.len() > n + 1 {
                        lemma_folders_above(children, root, way.drop_last(), n + 1);
                        assert(way.drop_last().take(n + 1) =~= here);
                    } else {
                        assert(way =~= here);
                        assert(more[ways.len() as int] == way);
                    }
                } else if ways.contains(way) {
                    let i = choose|i: int| 0 <= i < ways.len() && ways[i] == way;
                    assert(more[i] == way);
                }
            }
            assert(through(here, here)) by {
                assert(here.take(n + 1) =~= here);
            }
            assert forall|i: int, j: int|
                0 <= i < more.len() && 0 <= j < more.len() && i != j implies more[i] != more[j] by {
                if i < ways.len() && j < ways.len() {
                    assert(ways[i] != ways[j]);
                } else if i < ways.len() {
                    assert(!through(ways[i], here));
                } else {
                    assert(!through(ways[j], here));
                }
            }
            assert forall|i: int, k: int| 0 <= i < more.len() && 0 <= k < open.len() implies
                !#[trigger] through(more[i], open[k]) by {
                if i < ways.len() {
                    assert(!through(ways[i], open[k]));
                } else {
                    assert(!through(here, open[k]));
                }
            }
            assert forall|i: int| 0 <= i < more.len() && #[trigger] through(more[i], at) implies
                more[i].len() > at.len() && more[i][n] < c + 1 by {
                if i < ways.len() {
                    assert(through(ways[i], at));
                }
            }
            assert forall|i: int| 0 <= i < more.len() implies file_at(
                children,
                root,
                #[trigger] more[i],
            ) == Some(next.found[i].item) && next.found[i].rel == text::joined(
                names_on(children, root, more[i]),
                "/"@,
            ) by {
                if i < ways.len() {
                    assert(more[i] == ways[i]);
                }
            }
            assert(listing(children, root, next, more, open, at, c + 1));
            lemma_listing(children, root, next, more, open, at, c + 1)
        }
    }
}

proof fn lemma_walked(
    drive_id: Seq<char>,
    root: Seq<char>,
    children: spec_fn(Seq<char>) -> Seq<DriveItemView>,
    n: nat,
) -> (r: (Seq<Seq<int>>, Seq<Seq<int>>))
    requires
        forall|id: Seq<char>, i: int|
            0 <= i < children(id).len() ==> (#[trigger] children(id)[i]).name.len() > 0,
        walked(
            FolderWalkView {
                drive_id,
                stack: seq![(root, Seq::empty())],
                prefix: Seq::empty(),
                found: Seq::empty(),
            },
            children,
            n,
        ) is Some,
    ensures
        on_the_way(
            children,
            root,
            walked(
                FolderWalkView {
                    drive_id,
                    stack: seq![(root, Seq::empty())],
                    prefix: Seq::empty(),
                    found: Seq::empty(),
                },
                children,
                n,
            )->Some_0,
            r.0,
            r.1,
        ),
        nothing_lost(children, root, r.0, r.1),
    decreases n,
{
    let start = FolderWalkView {
        drive_id,
        stack: seq![(root, Seq::empty())],
        prefix: Seq::empty(),
        found: Seq::empty(),
    };
    if n == 0 {
        let open = seq![Seq::<int>::empty()];
        assert forall|way: Seq<int>| #[trigger] file_at(children, root, way) is Some implies exists|
            k: int,
        | 0 <= k < open.len() && #[trigger] through(way, open[k]) by {
            assert(way.take(0) =~= Seq::<int>::empty());
            assert(through(way, open[0]));
        }
        assert(on_the_way(children, root, start, Seq::empty(), open));
        (Seq::empty(), open)
    } else {
        let (ways, open) = lemma_walked(drive_id, root, children, (n - 1) as nat);
        let v = walked(start, children, (n - 1) as nat)->Some_0;
        let (id, prefix) = v.stack.last();
        let w = FolderWalkView { stack: v.stack.drop_last(), prefix, ..v };
        let last = open.len() - 1;
        let at = open[last];
        let rest = open.drop_last();
        assert forall|way: Seq<int>| #[trigger] file_at(children, root, way) is Some implies
            ways.contains(way) || (exists|k: int|
            0 <= k < rest.len() && #[trigger] through(way, rest[k])) || (through(way, at)
            && way.len() > at.len() && way[at.len() as int] >= 0) by {
            if !ways.contains(way) {
                let k = choose|k: int| 0 <= k < open.len() && #[trigger] through(way, open[k]);
                if k < last {
                    assert(through(way, rest[k]));
                } else if way.len() == at.len() {
                    assert(way.take(at.len() as int) =~= way);
                    assert(folder_at(children, root, way) is Some);
                } else {
                    let m = at.len() as int;
                    if way.len() > m + 1 {
                        lemma_folders_above(children, root, way.drop_last(), m + 1);
                        assert(way.drop_last().take(m + 1) =~= way.take(m + 1));
                    } else {
                        assert(way.take(m + 1) =~= way);
                    }
                    assert(way.take(m + 1).drop_last() =~= at);
                    assert(way.take(m + 1).last() == way[m]);
                }
            }
        }
        assert forall|i: int| 0 <= i < ways.len() && #[trigger] through(ways[i], at) implies
            ways[i].len() > at.len() && ways[i][at.len() as int] < 0 by {
            assert(!through(ways[i], open[last]));
        }
        assert forall|k: int| 0 <= k < rest.len() implies !#[trigger] through(at, rest[k]) by {
            assert(!through(open[last], open[k]));
        }
        assert forall|k: int| 0 <= k < rest.len() && #[trigger] through(rest[k], at) implies
            rest[k].len() > at.len() && rest[k][at.len() as int] < 0 by {
            assert(!through(open[k], open[last]));
        }
        assert forall|j: int, k: int|
            0 <= j < rest.len() && 0 <= k < rest.len() && j != k implies !#[trigger] through(
            rest[j],
            rest[k],
        ) by {
            assert(!through(open[j], open[k]));
        }
        assert forall|i: int, k: int| 0 <= i < ways.len() && 0 <= k < rest.len() implies
            !#[trigger] through(ways[i], rest[k]) by {
            assert(!through(ways[i], open[k]));
        }
        assert forall|k: int| 0 <= k < rest.len() implies folder_at(
            children,
            root,
            #[trigger] rest[k],
        ) == Some(w.stack[k].0) && w.stack[k].1 == text::joined(
            names_on(children, root, rest[k]),
            "/"@,
        ) by {
            assert(rest[k] == open[k]);
        }
        assert(listing(children, root, w, ways, rest, at, 0));
        assert(children(id).skip(0) =~= children(id));
        lemma_listing(children, root, w, ways, rest, at, 0)
    }
}

/// A walk that came to its end has found every file below the shared folder, however
/// deep, exactly once, each under the names of all folders on the way to it and its own
/// name, joined by `/`. No name is empty.
pub proof fn law_a_walk_finds_every_file_once(
    drive_id: Seq<char>,
    root: Seq<char>,
    children: spec_fn(Seq<char>) -> Seq<DriveItemView>,
    n: nat,
)
    requires
        forall|id: Seq<char>, i: int|
            0 <= i < children(id).len() ==> (#[trigger] children(id)[i]).name.len() > 0,
        walked(
            FolderWalkView {
                drive_id,
                stack: seq![(root, Seq::empty())],
                prefix: Seq::empty(),
                found: Seq::empty(),
            },
            children,
            n,
        ) matches Some(w) && w.stack.len() == 0,
    ensures
        exists|ways: Seq<Seq<int>>| #[trigger]
            found_along(
                children,
                root,
                walked(
                    FolderWalkView {
                        drive_id,
                        stack: seq![(root, Seq::empty())],
                        prefix: Seq::empty(),
                        found: Seq::empty(),
                    },
                    children,
                    n,
                )->Some_0.found,
                ways,
            ),
{
    let (ways, open) = lemma_walked(drive_id, root, children, n);
    let w = walked(
        FolderWalkView {
            drive_id,
            stack: seq![(root, Seq::empty())],
            prefix: Seq::empty(),
            found: Seq::empty(),
        },
        children,
        n,
    )->Some_0;
    assert forall|way: Seq<int>| #[trigger] ways.contains(way) implies file_at(
        children,
        root,
        way,
    ) is Some by {
        let i = choose|i: int| 0 <= i < ways.len() && ways[i] == way;
        assert(file_at(children, root, ways[i]) == Some(w.found[i].item));
    }
    assert forall|i: int| 0 <= i < w.found.len() implies Some((#[trigger] w.found[i]).item)
        == file_at(children, root, ways[i]) && w.found[i].rel == text::joined(
        names_on(children, root, ways[i]),
        "/"@,
    ) by {
        assert(file_at(children, root, ways[i]) == Some(w.found[i].item));
    }
    assert(found_along(children, root, w.found, ways));
}

/// Of the children of one folder every file is found and every folder is to be listed,
/// each in its order and under the path of the folder being listed, `/` and its own name,
/// whatever that path is; the listing fails exactly where a folder has no identity.
pub proof fn law_a_listing_keeps_the_path(w: FolderWalkView, children: Seq<DriveItemView>)
    ensures
        w.with_children(children) is Err <==> exists|i: int|
            0 <= i < children.len() && (#[trigger] children[i]).folder && children[i].id is None,
        w.with_children(children) matches Ok(v) ==> {
            let path = |name: Seq<char>|
                if w.prefix.len() == 0 {
                    name
                } else {
                    w.prefix + "/"@ + name
                };
            &&& v.drive_id == w.drive_id
            &&& v.prefix == w.prefix
            &&& v.found == w.found + children.filter(|c: DriveItemView| !c.folder).map_values(
                |c: DriveItemView| FoundView { item: c, rel: path(c.name) },
            )
            &&& v.stack == w.stack + children.filter(|c: DriveItemView| c.folder).map_values(
                |c: DriveItemView| (c.id->Some_0, path(c.name)),
            )
        },
    decreases children.len(),
{
    let path = |name: Seq<char>|
        if w.prefix.len() == 0 {
            name
        } else {
            w.prefix + "/"@ + name
        };
    let file = |c: DriveItemView| !c.folder;
    let folder = |c: DriveItemView| c.folder;
    let entry = |c: DriveItemView| FoundView { item: c, rel: path(c.name) };
    let place = |c: DriveItemView| (c.id->Some_0, path(c.name));
    if children.len() == 0 {
        reveal(Seq::filter);
        assert(w.found + children.filter(file).map_values(entry) =~= w.found);
        assert(w.stack + children.filter(folder).map_values(place) =~= w.stack);
    } else {
        let more = children.drop_first();
        let one = seq![children[0]];
        assert(children =~= one + more);
        Seq::filter_distributes_over_add(one, more, file);
        Seq::filter_distributes_over_add(one, more, folder);
        assert(one.drop_last() =~= Seq::empty());
        reveal(Seq::filter);
        reveal_with_fuel(Seq::filter, 2);
        assert forall|i: int| 0 <= i < more.len() implies #[trigger] more[i] == children[i + 1] by {}
        if w.with_child(children[0]) is Ok {
            let next = w.with_child(children[0])->Ok_0;
            law_a_listing_keeps_the_path(next, more);
            if exists|i: int| 0 <= i < children.len() && (#[trigger] children[i]).folder
                && children[i].id is None {
                let i = choose|i: int|
                    0 <= i < children.len() && (#[trigger] children[i]).folder
                        && children[i].id is None;
                assert(i > 0);
                assert(more[i - 1].folder && more[i - 1].id is None);
            }
            if exists|i: int| 0 <= i < more.len() && (#[trigger] more[i]).folder
                && more[i].id is None {
                let i = choose|i: int|
                    0 <= i < more.len() && (#[trigger] more[i]).folder && more[i].id is None;
                assert(children[i + 1].folder && children[i + 1].id is None);
            }
            if w.with_children(children) is Ok {
                let v = w.with_children(children)->Ok_0;
                assert(v.found =~= w.found + children.filter(file).map_values(entry));
                assert(v.stack =~= w.stack + children.filter(folder).map_values(place));
            }
        } else {
            assert(children[0].folder && children[0].id is None);
        }
    }
}

// The run.

/// What becomes of a file before its content is known.
pub enum Prospect {
    /// The run fails.
    Failed(Seq<char>),
    /// It is left out with a note.
    Oversize(Seq<char>),
    /// Its version is the last published one.
    Same(Seq<char>, Seq<char>),
    /// It is to be read at this address.
    Read(Seq<char>),
}

/// What becomes of a file before its content is known.
pub open spec fn prospect(f: FoundView, cap: u64, prev: Map<Seq<char>, Seq<char>>) -> Prospect {
    match f.item.id {
        None => Prospect::Failed("file '"@ + f.rel + "' has no Graph id"@),
        Some(id) => if f.item.size is Some && f.item.size->Some_0 > cap {
            Prospect::Oversize(
                tree::oversize_note(f.rel, f.item.size->Some_0 as nat, cap as nat),
            )
        } else if f.item.etag is Some && prev.contains_pair(id, f.item.etag->Some_0) {
            Prospect::Same(id, f.item.etag->Some_0)
        } else {
            match f.item.download_url {
                Some(u) => Prospect::Read(u),
                None => Prospect::Failed("no download URL on '"@ + f.rel + "'"@),
            }
        },
    }
}

/// What to do next in a run.
pub enum FolderStep {
    /// Read the file at this address; it is called so.
    Download { url: String, label: String },
    /// The run failed.
    Failed(String),
    /// Every file was dealt with.
    Done,
}

#[verifier::ext_equal]
pub enum FolderStepView {
    Download { url: Seq<char>, label: Seq<char> },
    Failed(Seq<char>),
    Done,
}

impl DeepView for FolderStep {
    type V = FolderStepView;

    open spec fn deep_view(&self) -> FolderStepView {
        match self {
            FolderStep::Download { url, label } => FolderStepView::Download {
                url: url@,
                label: label@,
            },
            FolderStep::Failed(e) => FolderStepView::Failed(e@),
            FolderStep::Done => FolderStepView::Done,
        }
    }
}

/// A run over the files of a folder.
pub struct FolderRun {
    kind: String,
    cap: u64,
    prev: TextMap,
    next: TextMap,
    unchanged: usize,
    items: Vec<Item>,
    notes: Vec<String>,
    /// Still to be dealt with, the next one last.
    pending: Vec<Found>,
}

#[verifier::ext_equal]
pub struct FolderRunView {
    pub kind: Seq<char>,
    pub cap: u64,
    /// What was last published of each file.
    pub prev: Map<Seq<char>, Seq<char>>,
    /// What is published of each file once this run is.
    pub next: Map<Seq<char>, Seq<char>>,
    pub unchanged: nat,
    pub items: Seq<ItemView>,
    pub notes: Seq<Seq<char>>,
    /// Still to be dealt with, the next one first.
    pub pending: Seq<FoundView>,
}

impl View for FolderRun {
    type V = FolderRunView;

    closed spec fn view(&self) -> FolderRunView {
        FolderRunView {
            kind: self.kind@,
            cap: self.cap,
            prev: self.prev@,
            next: self.next@,
            unchanged: self.unchanged as nat,
            items: self.items.deep_view(),
            notes: self.notes.deep_view(),
            pending: self.pending.deep_view().reverse(),
        }
    }
}

/// The version under which a file is published: the provider's, or without one
/// the digest of its content.
pub open spec fn published_version(f: FoundView, hash: Seq<char>) -> Seq<char> {
    match f.item.etag {
        Some(e) => e,
        None => hash,
    }
}

impl FolderRunView {
    /// The count of unchanged files has room for the files still to be dealt with.
    pub open spec fn well_formed(self) -> bool {
        self.unchanged + self.pending.len() <= usize::MAX
    }

    /// The next file is left out with a note.
    pub open spec fn skipping(self, note: Seq<char>) -> FolderRunView {
        FolderRunView {
            notes: self.notes.push(note),
            pending: self.pending.drop_first(),
            ..self
        }
    }

    /// The next file is as it was last published: its entry carries over.
    pub open spec fn carrying(self, id: Seq<char>, version: Seq<char>) -> FolderRunView {
        FolderRunView {
            next: self.next.insert(id, version),
            unchanged: self.unchanged + 1,
            pending: self.pending.drop_first(),
            ..self
        }
    }

    /// The item of the next file, of this size and digest.
    pub open spec fn item(self, size: nat, hash: Seq<char>) -> ItemView {
        let f = self.pending[0];
        ItemView {
            id: f.item.id->Some_0,
            kind: self.kind,
            version: f.item.etag,
            content_hash: hash,
            files: seq![f.rel],
            file_hashes: Map::empty(),
            locator: None,
            meta: sharepoint::file_meta(f.rel, size, f.item.last_modified),
        }
    }

    /// The next file, of this size and digest, is published.
    pub open spec fn publishing(self, size: nat, hash: Seq<char>) -> FolderRunView {
        let f = self.pending[0];
        FolderRunView {
            next: self.next.insert(f.item.id->Some_0, published_version(f, hash)),
            items: self.items.push(self.item(size, hash)),
            pending: self.pending.drop_first(),
            ..self
        }
    }

    /// Files dealt with until one has to be read, and what to do then.
    pub open spec fn settled(self) -> (FolderRunView, FolderStepView)
        decreases self.pending.len(),
    {
        if self.pending.len() == 0 {
            (self, FolderStepView::Done)
        } else {
            match prospect(self.pending[0], self.cap, self.prev) {
                Prospect::Failed(e) => (self, FolderStepView::Failed(e)),
                Prospect::Oversize(note) => self.skipping(note).settled(),
                Prospect::Same(id, version) => self.carrying(id, version).settled(),
                Prospect::Read(url) => (
                    self,
                    FolderStepView::Download { url, label: self.pending[0].rel },
                ),
            }
        }
    }

    /// Whether the content of the next file, by its digest, is what was last published
    /// of it, where the provider gives no version.
    pub open spec fn same_content(self, hash: Seq<char>) -> bool {
        let f = self.pending[0];
        f.item.etag is None && self.prev.contains_pair(f.item.id->Some_0, hash)
    }

    /// After the next file turned out to be of this size and digest.
    pub open spec fn digesting(self, size: nat, hash: Seq<char>) -> FolderRunView {
        if self.same_content(hash) {
            self.carrying(self.pending[0].item.id->Some_0, hash)
        } else {
            self.publishing(size, hash)
        }
    }

    /// After the content of the next file was read.
    pub open spec fn taking(self, bytes: Seq<u8>) -> FolderRunView {
        self.digesting(bytes.len(), digest::sha256_text(bytes))
    }

    /// The notes of the whole run.
    pub open spec fn all_notes(self) -> Seq<char> {
        text::joined(
            seq![
                text::decimal_text(self.items.len()) + " new/changed, "@ + text::decimal_text(
                    self.unchanged,
                ) + " unchanged"@,
            ] + self.notes,
            "; "@,
        )
    }
}

/// The files that the patterns select, in order.
pub open spec fn matched(found: Seq<FoundView>, list: Seq<Seq<char>>) -> Seq<FoundView> {
    found.filter(|f: FoundView| patterns::selects(list, f.rel, patterns::path_aware()))
}

/// What a checkpoint says was last published of each file: nothing where there is
/// none, or where it is no version map.
pub open spec fn known(checkpoint: Option<Option<Map<Seq<char>, Seq<char>>>>) -> Map<
    Seq<char>,
    Seq<char>,
> {
    match checkpoint {
        Some(Some(m)) => m,
        _ => Map::empty(),
    }
}

/// What is noted of a checkpoint: that it is no version map, where it is none.
pub open spec fn known_notes(checkpoint: Option<Option<Map<Seq<char>, Seq<char>>>>) -> Seq<
    Seq<char>,
> {
    match checkpoint {
        Some(None) => seq![
            "checkpoint is not a version map (target changed file → folder?) — full refetch"@,
        ],
        _ => Seq::empty(),
    }
}

/// A checkpoint, by the version map that it is, if it is one.
pub open spec fn read_checkpoint(checkpoint: Option<Seq<char>>) -> Option<
    Option<Map<Seq<char>, Seq<char>>>,
> {
    match checkpoint {
        Some(t) => Some(sharepoint::version_map(t)),
        None => None,
    }
}

/// A run before its first file, over the files that were selected.
pub open spec fn opening(
    sp: SpConfigView,
    checkpoint: Option<Option<Map<Seq<char>, Seq<char>>>>,
    selected: Seq<FoundView>,
) -> FolderRunView {
    FolderRunView {
        kind: sp.kind,
        cap: sp.max_file_bytes,
        prev: known(checkpoint),
        next: Map::empty(),
        unchanged: 0,
        items: Seq::empty(),
        notes: known_notes(checkpoint),
        pending: selected,
    }
}


fn take_matched(found: Vec<Found>, list: &Vec<String>) -> (r: Vec<Found>)
    ensures
        r.deep_view() == matched(found.deep_view(), list.deep_view()),
{
    let ghost kept = |f: FoundView|
        patterns::selects(list.deep_view(), f.rel, patterns::path_aware());
    let keep = |f: &Found| -> (b: bool)
        ensures
            b == kept(f.deep_view()),
        { rel_matches(list, f.rel.as_str()) };
    filtered(found, keep, Ghost(kept))
}

impl FolderRun {
    /// A run over the files that were selected, in this order, against a checkpoint
    /// that is a version map or is none.
    pub fn over(sp: &SpConfig, checkpoint: Option<Option<TextMap>>, selected: Vec<Found>) -> (r:
        FolderRun)
        ensures
            r@ == opening(sp.deep_view(), checkpoint.deep_view(), selected.deep_view()),
            r@.well_formed(),
    {
        let mut notes: Vec<String> = Vec::new();
        let ghost given = checkpoint.deep_view();
        let prev = match checkpoint {
            None => TextMap::new(),
            Some(Some(m)) => m,
            Some(None) => {
                notes.push(
                    "checkpoint is not a version map (target changed file → folder?) — full refetch".to_string(),
                );
                TextMap::new()
            },
        };
        let ghost all = selected.deep_view();
        let pending = reversed(selected);
        let r = FolderRun {
            kind: sp.kind.clone(),
            cap: sp.max_file_bytes,
            prev,
            next: TextMap::new(),
            unchanged: 0,
            items: Vec::new(),
            notes,
            pending,
        };
        assert(r.notes.deep_view() =~= known_notes(given));
        assert(r.items.deep_view() =~= Seq::<ItemView>::empty());
        assert(r.pending.deep_view().reverse() =~= all);
        assert(r@.pending.len() == r.pending.len());
        r
    }

    /// A run over the files that a walk found, against a checkpoint. Where the
    /// checkpoint is that of a single file, nothing is known and every file is read
    /// again, with a note.
    pub fn begin(sp: &SpConfig, checkpoint: &Option<String>, found: Vec<Found>) -> (r: FolderRun)
        ensures
            r@ == opening(
                sp.deep_view(),
                read_checkpoint(checkpoint.deep_view()),
                matched(found.deep_view(), sp.deep_view().patterns),
            ),
            r@.well_formed(),
            checkpoint matches Some(t) ==> sharepoint::bare_version(t@) ==> r@.prev == Map::<
                Seq<char>,
                Seq<char>,
            >::empty() && r@.notes.len() == 1,
    {
        let read = match checkpoint {
            None => None,
            Some(t) => Some(parse_version_map(t.as_str())),
        };
        FolderRun::over(sp, read, take_matched(found, &sp.patterns))
    }

    /// Deals with files until one has to be read, and says what to do then.
    pub fn advance(&mut self) -> (r: FolderStep)
        requires
            old(self)@.well_formed(),
        ensures
            (final(self)@, r.deep_view()) == old(self)@.settled(),
            final(self)@.well_formed(),
    {
        let ghost start = self@;
        while self.pending.len() > 0
            invariant
                start == old(self)@,
                self@.well_formed(),
                start.settled() == self@.settled(),
            decreases self.pending.len(),
        {
            let ghost now = self@;
            let ghost p = self.pending.deep_view();
            let n = self.pending.len();
            assert(now.pending[0] == self.pending@[n - 1].deep_view());
            assert(p.drop_last().reverse() =~= now.pending.drop_first());
            let f = &self.pending[n - 1];
            let id = match &f.item.id {
                Some(i) => i.clone(),
                None => {
                    return FolderStep::Failed(
                        "file '".to_string().concat(f.rel.as_str()).concat("' has no Graph id"),
                    );
                },
            };
            let oversize: Option<u64> = match f.item.size {
                Some(s) => if s > self.cap {
                    Some(s)
                } else {
                    None
                },
                None => None,
            };
            if let Some(size) = oversize {
                let note = "skipped ".to_string().concat(f.rel.as_str()).concat(" (").concat(
                    decimal(size).as_str(),
                ).concat(" bytes > ").concat(decimal(self.cap).as_str()).concat(" cap)");
                let ghost notes = self.notes.deep_view();
                self.notes.push(note);
                assert(self.notes.deep_view() =~= notes.push(note@));
                let _ = self.pending.pop();
                assert(self.pending.deep_view() =~= p.drop_last());
                assert(self@ == now.skipping(note@));
                continue ;
            }
            let same: Option<String> = match &f.item.etag {
                Some(e) => match self.prev.get(id.as_str()) {
                    Some(v) => if same_text(v.as_str(), e.as_str()) {
                        Some(e.clone())
                    } else {
                        None
                    },
                    None => None,
                },
                None => None,
            };
            if let Some(version) = same {
                self.next.insert(id, version);
                self.unchanged = self.unchanged + 1;
                let _ = self.pending.pop();
                assert(self.pending.deep_view() =~= p.drop_last());
                assert(self@ == now.carrying(id@, version@));
                continue ;
            }
            return match &f.item.download_url {
                Some(u) => FolderStep::Download { url: u.clone(), label: f.rel.clone() },
                None => FolderStep::Failed(
                    "no download URL on '".to_string().concat(f.rel.as_str()).concat("'"),
                ),
            };
        }
        FolderStep::Done
    }

    /// Takes the size and the digest of the file that was to be read. Where its content
    /// is new, the path under which the bytes are to be kept is returned.
    pub fn digested(&mut self, size: usize, hash: String) -> (r: Option<String>)
        requires
            old(self)@.well_formed(),
            old(self)@.settled().1 is Download,
            old(self)@.settled().0 == old(self)@,
        ensures
            final(self)@ == old(self)@.digesting(size as nat, hash@),
            final(self)@.well_formed(),
            r.deep_view() == if old(self)@.same_content(hash@) {
                None
            } else {
                Some(old(self)@.pending[0].rel)
            },
    {
        let ghost now = self@;
        let ghost p = self.pending.deep_view();
        proof {
            lemma_awaiting(now);
        }
        assert(now.pending[0] == p.last());
        assert(p.drop_last().reverse() =~= now.pending.drop_first());
        let f = match self.pending.pop() {
            Some(f) => f,
            None => {
                return None;
            },
        };
        assert(f.deep_view() == p.last());
        assert(self.pending.deep_view() =~= p.drop_last());
        let id = match f.item.id {
            Some(i) => i,
            None => {
                return None;
            },
        };
        let same = f.item.etag.is_none() && match self.prev.get(id.as_str()) {
            Some(v) => same_text(v.as_str(), hash.as_str()),
            None => false,
        };
        if same {
            self.next.insert(id, hash);
            self.unchanged = self.unchanged + 1;
            return None;
        }
        let version = match &f.item.etag {
            Some(e) => e.clone(),
            None => hash.clone(),
        };
        self.next.insert(id.clone(), version);
        let ghost before = self.items.deep_view();
        let item = Item {
            id,
            kind: self.kind.clone(),
            version: f.item.etag,
            content_hash: hash,
            files: one_text(f.rel.as_str()),
            file_hashes: TextMap::new(),
            locator: None,
            meta: meta_text(f.rel.as_str(), size, &f.item.last_modified),
        };
        self.items.push(item);
        assert(self.items.deep_view() =~= before.push(item.deep_view()));
        Some(f.rel)
    }

    /// Takes the content of the file that was to be read. Where it is new, the
    /// path under which the bytes are to be kept is returned.
    pub fn received(&mut self, bytes: &[u8]) -> (r: Option<String>)
        requires
            old(self)@.well_formed(),
            old(self)@.settled().1 is Download,
            old(self)@.settled().0 == old(self)@,
        ensures
            final(self)@ == old(self)@.taking(bytes@),
            final(self)@.well_formed(),
            r.deep_view() == if old(self)@.same_content(digest::sha256_text(bytes@)) {
                None
            } else {
                Some(old(self)@.pending[0].rel)
            },
    {
        self.digested(bytes.len(), sha256_hex(bytes))
    }

    /// The result of the run. Its checkpoint is the version map of the files that
    /// were there: a deleted file drops out of it.
    pub fn finish(self) -> (r: Result<FetchResult, String>)
        ensures
            r matches Ok(f) ==> {
                &&& f.deep_view().items == self@.items
                &&& f.deep_view().notes == self@.all_notes()
                &&& f.deep_view().next_checkpoint is Some
                &&& sharepoint::version_map(f.deep_view().next_checkpoint->Some_0) == Some(
                    self@.next,
                )
            },
            exists|pairs: Seq<(Seq<char>, Seq<char>)>|
                crate::textmap::ascending(pairs) && crate::textmap::map_of(pairs) == self@.next && (
                match r {
                    Ok(f) => Ok(f.deep_view().next_checkpoint->Some_0),
                    Err(e) => Err(e@),
                }) == #[trigger] sharepoint::version_text(pairs),
    {
        let count = decimal(self.items.len() as u64).concat(" new/changed, ").concat(
            decimal(self.unchanged as u64).as_str(),
        ).concat(" unchanged");
        let mut notes = self.notes;
        let ghost before = notes.deep_view();
        notes.insert(0, count);
        assert(notes.deep_view() =~= seq![count@] + before);
        match serialize_version_map(&self.next) {
            Ok(checkpoint) => Ok(
                FetchResult {
                    items: self.items,
                    notes: join(&notes, "; "),
                    next_checkpoint: Some(checkpoint),
                },
            ),
            Err(e) => Err(e),
        }
    }
}

/// A run that waits for a file waits for the next one, which has an identity.
proof fn lemma_awaiting(v: FolderRunView)
    requires
        v.settled().1 is Download,
        v.settled().0 == v,
    ensures
        v.pending.len() > 0,
        v.pending[0].item.id is Some,
{
    if v.pending.len() > 0 {
        match prospect(v.pending[0], v.cap, v.prev) {
            Prospect::Oversize(note) => {
                lemma_settled_shape(v.skipping(note));
            },
            Prospect::Same(id, version) => {
                lemma_settled_shape(v.carrying(id, version));
            },
            _ => {},
        }
    }
}

/// A run over all files, where `content` says what the file of an identity holds.
pub open spec fn run_over(v: FolderRunView, content: spec_fn(Seq<char>) -> Seq<u8>) -> (
    FolderRunView,
    FolderStepView,
)
    decreases v.pending.len(),
    via run_over_shrinks
{
    let (at, step) = v.settled();
    if step is Download {
        run_over(at.taking(content(at.pending[0].item.id->Some_0)), content)
    } else {
        (at, step)
    }
}

#[via_fn]
proof fn run_over_shrinks(v: FolderRunView, content: spec_fn(Seq<char>) -> Seq<u8>) {
    lemma_settled_shape(v);
}

/// What a step leaves to be dealt with is no more than what was to be dealt with.
proof fn lemma_settled_shape(v: FolderRunView)
    ensures
        v.settled().0.pending.len() <= v.pending.len(),
        v.settled().1 is Download ==> v.settled().0.pending.len() > 0,
    decreases v.pending.len(),
{
    if v.pending.len() > 0 {
        match prospect(v.pending[0], v.cap, v.prev) {
            Prospect::Oversize(note) => {
                lemma_settled_shape(v.skipping(note));
            },
            Prospect::Same(id, version) => {
                lemma_settled_shape(v.carrying(id, version));
            },
            _ => {},
        }
    }
}

/// The same run, file by file.
spec fn stepped(v: FolderRunView, content: spec_fn(Seq<char>) -> Seq<u8>) -> (
    FolderRunView,
    FolderStepView,
)
    decreases v.pending.len(),
{
    if v.pending.len() == 0 {
        (v, FolderStepView::Done)
    } else {
        match prospect(v.pending[0], v.cap, v.prev) {
            Prospect::Failed(e) => (v, FolderStepView::Failed(e)),
            Prospect::Oversize(note) => stepped(v.skipping(note), content),
            Prospect::Same(id, version) => stepped(v.carrying(id, version), content),
            Prospect::Read(_) => stepped(
                v.taking(content(v.pending[0].item.id->Some_0)),
                content,
            ),
        }
    }
}

proof fn lemma_stepped(v: FolderRunView, content: spec_fn(Seq<char>) -> Seq<u8>)
    ensures
        run_over(v, content) == stepped(v, content),
    decreases v.pending.len(),
{
    if v.pending.len() > 0 {
        match prospect(v.pending[0], v.cap, v.prev) {
            Prospect::Failed(_) => {},
            Prospect::Oversize(note) => {
                lemma_stepped(v.skipping(note), content);
                assert(v.settled() == v.skipping(note).settled());
            },
            Prospect::Same(id, version) => {
                lemma_stepped(v.carrying(id, version), content);
                assert(v.settled() == v.carrying(id, version).settled());
            },
            Prospect::Read(_) => {
                lemma_stepped(v.taking(content(v.pending[0].item.id->Some_0)), content);
            },
        }
    }
}

/// Whether a file is over the cap.
pub open spec fn over_cap(f: FoundView, cap: u64) -> bool {
    f.item.size is Some && f.item.size->Some_0 > cap
}

/// The version of a file: the provider's, or without one the digest of its content.
pub open spec fn version_in(f: FoundView, content: spec_fn(Seq<char>) -> Seq<u8>) -> Seq<char> {
    published_version(f, digest::sha256_text(content(f.item.id->Some_0)))
}

/// A version map with the versions of some files added in order, of those that are
/// not over the cap.
pub open spec fn versions(
    files: Seq<FoundView>,
    cap: u64,
    content: spec_fn(Seq<char>) -> Seq<u8>,
    base: Map<Seq<char>, Seq<char>>,
) -> Map<Seq<char>, Seq<char>>
    decreases files.len(),
{
    if files.len() == 0 {
        base
    } else if over_cap(files[0], cap) {
        versions(files.drop_first(), cap, content, base)
    } else {
        versions(
            files.drop_first(),
            cap,
            content,
            base.insert(files[0].item.id->Some_0, version_in(files[0], content)),
        )
    }
}

/// Whether a file can be dealt with: it has an identity, and an address where it is
/// to be read for want of a version.
spec fn sound(f: FoundView, cap: u64) -> bool {
    f.item.id is Some && (over_cap(f, cap) || f.item.etag is Some || f.item.download_url is Some)
}

proof fn lemma_stepped_next(v: FolderRunView, content: spec_fn(Seq<char>) -> Seq<u8>)
    requires
        stepped(v, content).1 is Done,
    ensures
        stepped(v, content).0.next == versions(v.pending, v.cap, content, v.next),
        forall|i: int| 0 <= i < v.pending.len() ==> sound(#[trigger] v.pending[i], v.cap),
    decreases v.pending.len(),
{
    if v.pending.len() > 0 {
        let next = match prospect(v.pending[0], v.cap, v.prev) {
            Prospect::Oversize(note) => v.skipping(note),
            Prospect::Same(id, version) => v.carrying(id, version),
            _ => v.taking(content(v.pending[0].item.id->Some_0)),
        };
        lemma_stepped_next(next, content);
        assert forall|i: int| 0 <= i < v.pending.len() implies sound(
            #[trigger] v.pending[i],
            v.cap,
        ) by {
            if i > 0 {
                assert(next.pending[i - 1] == v.pending[i]);
            }
        }
    }
}

/// Whether a file of this identity is among these.
pub open spec fn listed(files: Seq<FoundView>, id: Seq<char>) -> bool {
    exists|i: int| 0 <= i < files.len() && (#[trigger] files[i]).item.id == Some(id)
}

proof fn lemma_versions_elsewhere(
    files: Seq<FoundView>,
    cap: u64,
    content: spec_fn(Seq<char>) -> Seq<u8>,
    base: Map<Seq<char>, Seq<char>>,
    id: Seq<char>,
)
    requires
        !listed(files, id),
        forall|i: int| 0 <= i < files.len() ==> (#[trigger] files[i]).item.id is Some,
    ensures
        versions(files, cap, content, base).contains_key(id) == base.contains_key(id),
        versions(files, cap, content, base)[id] == base[id],
    decreases files.len(),
{
    if files.len() > 0 {
        let rest = files.drop_first();
        assert(!listed(rest, id)) by {
            if listed(rest, id) {
                let i = choose|i: int| 0 <= i < rest.len() && (#[trigger] rest[i]).item.id == Some(id);
                assert(files[i + 1].item.id == Some(id));
            }
        }
        assert forall|i: int| 0 <= i < rest.len() implies (#[trigger] rest[i]).item.id is Some by {
            assert(rest[i] == files[i + 1]);
        }
        assert(files[0].item.id != Some(id));
        if over_cap(files[0], cap) {
            lemma_versions_elsewhere(rest, cap, content, base, id);
        } else {
            lemma_versions_elsewhere(
                rest,
                cap,
                content,
                base.insert(files[0].item.id->Some_0, version_in(files[0], content)),
                id,
            );
        }
    }
}

/// Files each with an identity of its own.
pub open spec fn told_apart(files: Seq<FoundView>) -> bool {
    &&& forall|i: int| 0 <= i < files.len() ==> (#[trigger] files[i]).item.id is Some
    &&& forall|i: int, j: int|
        0 <= i < j < files.len() ==> (#[trigger] files[i]).item.id != (#[trigger] files[j]).item.id
}

proof fn lemma_versions_hold(
    files: Seq<FoundView>,
    cap: u64,
    content: spec_fn(Seq<char>) -> Seq<u8>,
    base: Map<Seq<char>, Seq<char>>,
    i: int,
)
    requires
        told_apart(files),
        0 <= i < files.len(),
        !over_cap(files[i], cap),
    ensures
        versions(files, cap, content, base).contains_pair(
            files[i].item.id->Some_0,
            version_in(files[i], content),
        ),
    decreases files.len(),
{
    let rest = files.drop_first();
    assert forall|k: int| 0 <= k < rest.len() implies (#[trigger] rest[k]).item.id is Some by {
        assert(rest[k] == files[k + 1]);
    }
    assert forall|j: int, k: int| 0 <= j < k < rest.len() implies (#[trigger] rest[j]).item.id != (
    #[trigger] rest[k]).item.id by {
        assert(rest[j] == files[j + 1] && rest[k] == files[k + 1]);
    }
    let id = files[0].item.id->Some_0;
    let more = if over_cap(files[0], cap) {
        base
    } else {
        base.insert(id, version_in(files[0], content))
    };
    if i == 0 {
        assert(!listed(rest, id)) by {
            if listed(rest, id) {
                let k = choose|k: int| 0 <= k < rest.len() && (#[trigger] rest[k]).item.id == Some(id);
                assert(files[k + 1] == rest[k]);
                assert(files[0].item.id != files[k + 1].item.id);
            }
        }
        lemma_versions_elsewhere(rest, cap, content, more, id);
    } else {
        assert(rest[i - 1] == files[i]);
        lemma_versions_hold(rest, cap, content, more, i - 1);
    }
}

/// Whether a run finds a file as it was last published.
spec fn remembered(
    f: FoundView,
    cap: u64,
    prev: Map<Seq<char>, Seq<char>>,
    content: spec_fn(Seq<char>) -> Seq<u8>,
) -> bool {
    sound(f, cap) && (over_cap(f, cap) || prev.contains_pair(
        f.item.id->Some_0,
        version_in(f, content),
    ))
}

proof fn lemma_remembered(v: FolderRunView, content: spec_fn(Seq<char>) -> Seq<u8>)
    requires
        forall|i: int|
            0 <= i < v.pending.len() ==> remembered(
                #[trigger] v.pending[i],
                v.cap,
                v.prev,
                content,
            ),
    ensures
        stepped(v, content).1 is Done,
        stepped(v, content).0.items == v.items,
    decreases v.pending.len(),
{
    if v.pending.len() > 0 {
        let f = v.pending[0];
        let next = match prospect(f, v.cap, v.prev) {
            Prospect::Oversize(note) => v.skipping(note),
            Prospect::Same(id, version) => v.carrying(id, version),
            _ => v.taking(content(f.item.id->Some_0)),
        };
        assert(remembered(f, v.cap, v.prev, content));
        assert forall|i: int| 0 <= i < next.pending.len() implies remembered(
            #[trigger] next.pending[i],
            next.cap,
            next.prev,
            content,
        ) by {
            assert(next.pending[i] == v.pending[i + 1]);
        }
        lemma_remembered(next, content);
    }
}

/// What becomes of a file before its content is known: it fails the run where it has no
/// identity; it is left out where it is said to be larger than the cap; it is as it was
/// where its version is the one last published of its identity; and otherwise it is read,
/// at its own address, or fails the run where it has none.
pub proof fn law_what_becomes_of_a_file(f: FoundView, cap: u64, prev: Map<Seq<char>, Seq<char>>)
    ensures
        f.item.id is None <==> prospect(f, cap, prev) == Prospect::Failed(
            "file '"@ + f.rel + "' has no Graph id"@,
        ) && f.item.id is None,
        f.item.id is None ==> prospect(f, cap, prev) is Failed,
        f.item.id is Some ==> (prospect(f, cap, prev) is Oversize <==> (match f.item.size {
            Some(size) => size > cap,
            None => false,
        })),
        f.item.id matches Some(id) ==> (prospect(f, cap, prev) is Same <==> !(
        match f.item.size {
            Some(size) => size > cap,
            None => false,
        }) && f.item.etag is Some && prev.dom().contains(id) && prev[id] == f.item.etag->Some_0),
        prospect(f, cap, prev) matches Prospect::Same(id, version) ==> f.item.id == Some(id)
            && f.item.etag == Some(version),
        prospect(f, cap, prev) matches Prospect::Read(url) ==> f.item.download_url == Some(url),
        f.item.id is Some && f.item.download_url is Some ==> prospect(f, cap, prev) !is Failed,
        prospect(f, cap, prev) matches Prospect::Oversize(note) ==> text::starts_with(
            note,
            "skipped "@ + f.rel + " ("@,
        ),
{
    if let Prospect::Oversize(note) = prospect(f, cap, prev) {
        let head = "skipped "@ + f.rel + " ("@;
        assert(note.take(head.len() as int) =~= head);
    }
}

/// Whether a run reads a file and finds it changed: it is within the cap, and the version
/// last published of its identity is another one or there is none.
pub open spec fn changed(
    f: FoundView,
    cap: u64,
    prev: Map<Seq<char>, Seq<char>>,
    content: spec_fn(Seq<char>) -> Seq<u8>,
) -> bool {
    let id = f.item.id->Some_0;
    let now = match f.item.etag {
        Some(e) => e,
        None => digest::sha256_text(content(id)),
    };
    &&& !(f.item.size is Some && f.item.size->Some_0 > cap)
    &&& !(prev.dom().contains(id) && prev[id] == now)
}

proof fn lemma_stepped_items(v: FolderRunView, content: spec_fn(Seq<char>) -> Seq<u8>)
    requires
        stepped(v, content).1 is Done,
    ensures
        ({
            let end = stepped(v, content).0;
            let news = |f: FoundView| changed(f, v.cap, v.prev, content);
            let large = |f: FoundView| f.item.size is Some && f.item.size->Some_0 > v.cap;
            &&& end.items == v.items + v.pending.filter(news).map_values(
                |f: FoundView|
                    {
                        let bytes = content(f.item.id->Some_0);
                        ItemView {
                            id: f.item.id->Some_0,
                            kind: v.kind,
                            version: f.item.etag,
                            content_hash: digest::sha256_text(bytes),
                            files: seq![f.rel],
                            file_hashes: Map::empty(),
                            locator: None,
                            meta: sharepoint::file_meta(
                                f.rel,
                                bytes.len(),
                                f.item.last_modified,
                            ),
                        }
                    },
            )
            &&& end.notes == v.notes + v.pending.filter(large).map_values(
                |f: FoundView|
                    tree::oversize_note(f.rel, f.item.size->Some_0 as nat, v.cap as nat),
            )
            &&& end.unchanged + v.pending.filter(news).len() + v.pending.filter(large).len()
                == v.unchanged + v.pending.len()
        }),
    decreases v.pending.len(),
{
    let news = |f: FoundView| changed(f, v.cap, v.prev, content);
    let large = |f: FoundView| f.item.size is Some && f.item.size->Some_0 > v.cap;
    let made = |f: FoundView|
        {
            let bytes = content(f.item.id->Some_0);
            ItemView {
                id: f.item.id->Some_0,
                kind: v.kind,
                version: f.item.etag,
                content_hash: digest::sha256_text(bytes),
                files: seq![f.rel],
                file_hashes: Map::empty(),
                locator: None,
                meta: sharepoint::file_meta(f.rel, bytes.len(), f.item.last_modified),
            }
        };
    let noted = |f: FoundView|
        tree::oversize_note(f.rel, f.item.size->Some_0 as nat, v.cap as nat);
    let end = stepped(v, content).0;
    if v.pending.len() == 0 {
        reveal(Seq::filter);
        assert(v.pending.filter(news) =~= Seq::empty() && v.pending.filter(large) =~= Seq::empty());
        assert(end.items =~= v.items + v.pending.filter(news).map_values(made));
        assert(end.notes =~= v.notes + v.pending.filter(large).map_values(noted));
    } else {
        let f = v.pending[0];
        let next = match prospect(f, v.cap, v.prev) {
            Prospect::Oversize(note) => v.skipping(note),
            Prospect::Same(id, version) => v.carrying(id, version),
            _ => v.taking(content(f.item.id->Some_0)),
        };
        lemma_stepped_items(next, content);
        let one = seq![f];
        let rest = v.pending.drop_first();
        assert(v.pending =~= one + rest);
        Seq::filter_distributes_over_add(one, rest, news);
        Seq::filter_distributes_over_add(one, rest, large);
        assert(one.drop_last() =~= Seq::empty());
        reveal_with_fuel(Seq::filter, 2);
        assert(end.items =~= v.items + v.pending.filter(news).map_values(made));
        assert(end.notes =~= v.notes + v.pending.filter(large).map_values(noted));
    }
}

/// A run over a folder that comes to its end publishes exactly the files within the cap
/// whose version is not the one last published, in their order: each under its own path,
/// with its identity, the provider's version, and the digest and the size of its content.
/// Every file over the cap is noted, and every other is counted as unchanged.
pub proof fn law_a_run_publishes_exactly_what_changed(
    sp: SpConfigView,
    checkpoint: Option<Option<Map<Seq<char>, Seq<char>>>>,
    files: Seq<FoundView>,
    content: spec_fn(Seq<char>) -> Seq<u8>,
)
    requires
        run_over(opening(sp, checkpoint, files), content).1 is Done,
    ensures
        ({
            let end = run_over(opening(sp, checkpoint, files), content).0;
            let prev = match checkpoint {
                Some(Some(m)) => m,
                _ => Map::empty(),
            };
            let news = |f: FoundView| changed(f, sp.max_file_bytes, prev, content);
            let large = |f: FoundView|
                f.item.size is Some && f.item.size->Some_0 > sp.max_file_bytes;
            &&& end.items == files.filter(news).map_values(
                |f: FoundView|
                    {
                        let bytes = content(f.item.id->Some_0);
                        ItemView {
                            id: f.item.id->Some_0,
                            kind: sp.kind,
                            version: f.item.etag,
                            content_hash: digest::sha256_text(bytes),
                            files: seq![f.rel],
                            file_hashes: Map::empty(),
                            locator: None,
                            meta: sharepoint::file_meta(
                                f.rel,
                                bytes.len(),
                                f.item.last_modified,
                            ),
                        }
                    },
            )
            &&& end.notes.len() == files.filter(large).len() + if checkpoint == Some(
                None::<Map<Seq<char>, Seq<char>>>,
            ) {
                1int
            } else {
                0int
            }
            &&& end.unchanged + end.items.len() + files.filter(large).len() == files.len()
        }),
{
    let v = opening(sp, checkpoint, files);
    lemma_stepped(v, content);
    lemma_stepped_items(v, content);
    let end = run_over(v, content).0;
    let news = |f: FoundView| changed(f, v.cap, v.prev, content);
    let made = |f: FoundView|
        {
            let bytes = content(f.item.id->Some_0);
            ItemView {
                id: f.item.id->Some_0,
                kind: sp.kind,
                version: f.item.etag,
                content_hash: digest::sha256_text(bytes),
                files: seq![f.rel],
                file_hashes: Map::empty(),
                locator: None,
                meta: sharepoint::file_meta(f.rel, bytes.len(), f.item.last_modified),
            }
        };
    assert(end.items =~= files.filter(news).map_values(made));
}

/// The version map that a finished run leaves holds every file within the cap under its
/// identity: with the provider's version, or without one the digest of its content,
/// whether it was published in this run or before.
pub proof fn law_a_run_remembers_every_file(
    sp: SpConfigView,
    checkpoint: Option<Option<Map<Seq<char>, Seq<char>>>>,
    files: Seq<FoundView>,
    content: spec_fn(Seq<char>) -> Seq<u8>,
    i: int,
)
    requires
        told_apart(files),
        0 <= i < files.len(),
        run_over(opening(sp, checkpoint, files), content).1 is Done,
    ensures
        ({
            let next = run_over(opening(sp, checkpoint, files), content).0.next;
            let id = files[i].item.id->Some_0;
            if files[i].item.size is Some && files[i].item.size->Some_0 > sp.max_file_bytes {
                !next.dom().contains(id)
            } else {
                next.dom().contains(id) && next[id] == match files[i].item.etag {
                    Some(e) => e,
                    None => digest::sha256_text(content(id)),
                }
            }
        }),
{
    let v = opening(sp, checkpoint, files);
    lemma_stepped(v, content);
    lemma_stepped_next(v, content);
    if over_cap(files[i], v.cap) {
        lemma_versions_of_others(files, v.cap, content, v.next, files[i].item.id->Some_0);
    } else {
        lemma_versions_hold(files, v.cap, content, v.next, i);
    }
}

proof fn lemma_versions_of_others(
    files: Seq<FoundView>,
    cap: u64,
    content: spec_fn(Seq<char>) -> Seq<u8>,
    base: Map<Seq<char>, Seq<char>>,
    id: Seq<char>,
)
    requires
        forall|i: int| 0 <= i < files.len() ==> (#[trigger] files[i]).item.id is Some,
        forall|i: int|
            0 <= i < files.len() && (#[trigger] files[i]).item.id == Some(id) ==> over_cap(
                files[i],
                cap,
            ),
    ensures
        versions(files, cap, content, base).contains_key(id) == base.contains_key(id),
    decreases files.len(),
{
    if files.len() > 0 {
        let rest = files.drop_first();
        assert forall|i: int| 0 <= i < rest.len() implies #[trigger] rest[i] == files[i + 1] by {}
        if over_cap(files[0], cap) {
            lemma_versions_of_others(rest, cap, content, base, id);
        } else {
            lemma_versions_of_others(
                rest,
                cap,
                content,
                base.insert(files[0].item.id->Some_0, version_in(files[0], content)),
                id,
            );
        }
    }
}

/// A run knows what its checkpoint says was last published; without a checkpoint, or with
/// one that is no version map, it knows nothing, and the second is noted.
pub proof fn law_what_a_run_begins_with(
    sp: SpConfigView,
    checkpoint: Option<Option<Map<Seq<char>, Seq<char>>>>,
    selected: Seq<FoundView>,
)
    ensures
        ({
            let v = opening(sp, checkpoint, selected);
            &&& v.pending == selected
            &&& v.cap == sp.max_file_bytes
            &&& v.kind == sp.kind
            &&& v.items.len() == 0
            &&& v.unchanged == 0
            &&& v.next.dom() == Set::<Seq<char>>::empty()
            &&& checkpoint matches Some(Some(m)) ==> v.prev == m && v.notes.len() == 0
            &&& checkpoint is None ==> v.prev.dom() == Set::<Seq<char>>::empty() && v.notes.len()
                == 0
            &&& checkpoint matches Some(None) ==> v.prev.dom() == Set::<Seq<char>>::empty()
                && v.notes.len() == 1
        }),
{
}

/// The files of a run are those that a pattern matches by their paths below the shared
/// folder, `*` within one level, the case of letters aside: all of them, each as often as
/// it was found.
pub proof fn law_every_matched_file_is_selected(
    found: Seq<FoundView>,
    list: Seq<Seq<char>>,
    f: FoundView,
)
    ensures
        matched(found, list).to_multiset().count(f) == if exists|i: int|
            0 <= i < list.len() && #[trigger] patterns::glob_match(
                list[i],
                f.rel,
                patterns::Matching {
                    case_sensitive: false,
                    literal_separator: true,
                    literal_leading_dot: true,
                },
            ) {
            found.to_multiset().count(f)
        } else {
            0
        },
{
    let keep = |f: FoundView| patterns::selects(list, f.rel, patterns::path_aware());
    tree::lemma_filter_counts(found, keep, f);
}

/// The files that a walk found come in the order of their paths, each as often as it was
/// found.
pub proof fn law_found_files_come_by_path(found: Seq<FoundView>)
    ensures
        sorting::sorted::<Found>(found).to_multiset() == found.to_multiset(),
        forall|a: int, b: int|
            0 <= a < b < sorting::sorted::<Found>(found).len() ==> !text::text_less(
                (#[trigger] sorting::sorted::<Found>(found)[b]).rel,
                (#[trigger] sorting::sorted::<Found>(found)[a]).rel,
            ),
{
    sorting::lemma_sorted::<Found>(found);
    let r = sorting::sorted::<Found>(found);
    assert forall|a: int, b: int| 0 <= a < b < r.len() implies !text::text_less(
        (#[trigger] r[b]).rel,
        (#[trigger] r[a]).rel,
    ) by {
        assert(!Found::precedes(r[b], r[a]));
    }
}

/// The notes of a run begin with how many files were published and how many were as they
/// were; every further note stands behind them.
pub proof fn law_the_notes_begin_with_the_counts(v: FolderRunView)
    ensures
        ({
            let counts = text::decimal_text(v.items.len()) + " new/changed, "@
                + text::decimal_text(v.unchanged) + " unchanged"@;
            v.all_notes() == if v.notes.len() == 0 {
                counts
            } else {
                counts + "; "@ + text::joined(v.notes, "; "@)
            }
        }),
{
    let counts = text::decimal_text(v.items.len()) + " new/changed, "@ + text::decimal_text(
        v.unchanged,
    ) + " unchanged"@;
    text::law_joining_goes_piece_by_piece(seq![counts], v.notes, counts, "; "@);
    if v.notes.len() == 0 {
        assert(seq![counts] + v.notes =~= seq![counts]);
    }
}

/// A folder is published once: after a run that dealt with every file, a run over
/// the same files, against the checkpoint that the first one left, brings no item
/// and leaves the same version map. The files have identities of their own;
/// whether they have versions does not matter.
pub proof fn law_a_folder_is_published_once(
    sp: SpConfigView,
    files: Seq<FoundView>,
    before: Option<Option<Map<Seq<char>, Seq<char>>>>,
    content: spec_fn(Seq<char>) -> Seq<u8>,
    checkpoint: Seq<char>,
)
    requires
        told_apart(files),
        run_over(opening(sp, before, files), content).1 is Done,
        sharepoint::version_map(checkpoint) == Some(
            run_over(opening(sp, before, files), content).0.next,
        ),
    ensures
        ({
            let again = run_over(
                opening(sp, read_checkpoint(Some(checkpoint)), files),
                content,
            );
            &&& again.1 is Done
            &&& again.0.items.len() == 0
            &&& again.0.next == run_over(opening(sp, before, files), content).0.next
        }),
{
    let first = opening(sp, before, files);
    let second = opening(sp, read_checkpoint(Some(checkpoint)), files);
    lemma_stepped(first, content);
    lemma_stepped(second, content);
    lemma_stepped_next(first, content);
    assert forall|i: int| 0 <= i < second.pending.len() implies remembered(
        #[trigger] second.pending[i],
        second.cap,
        second.prev,
        content,
    ) by {
        assert(sound(first.pending[i], first.cap));
        if !over_cap(files[i], first.cap) {
            lemma_versions_hold(files, first.cap, content, first.next, i);
        }
    }
    lemma_remembered(second, content);
    lemma_stepped_next(second, content);
}

/// Where every file is over the cap or was last published in its present version, no
/// file is read.
pub proof fn law_an_unchanged_folder_is_not_read(v: FolderRunView)
    requires
        forall|i: int|
            0 <= i < v.pending.len() ==> (#[trigger] v.pending[i]).item.id is Some && (over_cap(
                v.pending[i],
                v.cap,
            ) || (v.pending[i].item.etag is Some && v.prev.contains_pair(
                v.pending[i].item.id->Some_0,
                v.pending[i].item.etag->Some_0,
            ))),
    ensures
        v.settled().1 is Done,
        v.settled().0.items == v.items,
        v.settled().0.pending.len() == 0,
    decreases v.pending.len(),
{
    if v.pending.len() > 0 {
        let f = v.pending[0];
        let next = if over_cap(f, v.cap) {
            v.skipping(
                tree::oversize_note(f.rel, f.item.size->Some_0 as nat, v.cap as nat),
            )
        } else {
            v.carrying(f.item.id->Some_0, f.item.etag->Some_0)
        };
        assert forall|i: int| 0 <= i < next.pending.len() implies (
        #[trigger] next.pending[i]).item.id is Some && (over_cap(next.pending[i], next.cap) || (
        next.pending[i].item.etag is Some && next.prev.contains_pair(
            next.pending[i].item.id->Some_0,
            next.pending[i].item.etag->Some_0,
        ))) by {
            assert(next.pending[i] == v.pending[i + 1]);
        }
        law_an_unchanged_folder_is_not_read(next);
    }
}

/// A file that is no longer there, or that no pattern selects any more, drops out
/// of the version map: the map that a run leaves holds the files of that run alone.
pub proof fn law_only_present_files_are_remembered(
    sp: SpConfigView,
    files: Seq<FoundView>,
    before: Option<Option<Map<Seq<char>, Seq<char>>>>,
    content: spec_fn(Seq<char>) -> Seq<u8>,
    id: Seq<char>,
)
    requires
        run_over(opening(sp, before, files), content).1 is Done,
        run_over(opening(sp, before, files), content).0.next.contains_key(id),
    ensures
        listed(files, id),
{
    let v = opening(sp, before, files);
    lemma_stepped(v, content);
    lemma_stepped_next(v, content);
    if !listed(files, id) {
        assert forall|i: int| 0 <= i < files.len() implies (#[trigger] files[i]).item.id is Some by {
            assert(sound(v.pending[i], v.cap));
        }
        lemma_versions_elsewhere(files, v.cap, content, v.next, id);
    }
}

/// A folder can be walked exactly where it names its drive and itself and all patterns
/// compile.
pub proof fn law_which_folders_can_be_walked(sp: SpConfigView, root: DriveItemView)
    ensures
        walk_error(sp, root) is None <==> root.drive_id is Some && root.id is Some
            && patterns::patterns_error("pattern"@, sp.patterns) is None,
{
}

/// A file whose content was read is published unless it has no version and its digest is
/// the one last published of its identity; either way its identity is remembered with its
/// version, or without one with the digest, and only the next file is dealt with.
pub proof fn law_what_a_read_file_comes_to(v: FolderRunView, bytes: Seq<u8>)
    requires
        v.pending.len() > 0,
        v.pending[0].item.id is Some,
    ensures
        ({
            let f = v.pending[0];
            let id = f.item.id->Some_0;
            let hash = digest::sha256_text(bytes);
            let w = v.taking(bytes);
            let same = f.item.etag is None && v.prev.dom().contains(id) && v.prev[id] == hash;
            &&& w.pending == v.pending.skip(1)
            &&& w.prev == v.prev && w.cap == v.cap && w.kind == v.kind && w.notes == v.notes
            &&& w.next == v.next.insert(
                id,
                match f.item.etag {
                    Some(e) => e,
                    None => hash,
                },
            )
            &&& same ==> w.items == v.items && w.unchanged == v.unchanged + 1
            &&& !same ==> w.unchanged == v.unchanged && w.items.len() == v.items.len() + 1
                && w.items.drop_last() == v.items && w.items.last().id == id
                && w.items.last().files == seq![f.rel] && w.items.last().content_hash == hash
                && w.items.last().version == f.item.etag && w.items.last().kind == v.kind
                && w.items.last().locator is None
        }),
{
    let w = v.taking(bytes);
    assert(w.pending =~= v.pending.skip(1));
    let f = v.pending[0];
    if !v.same_content(digest::sha256_text(bytes)) {
        assert(w.items.drop_last() =~= v.items);
    }
}

/// What is stated of a file that was found is stated of its own item and path.
pub proof fn law_a_found_file_is_its_fields(f: Found)
    ensures
        f.deep_view().item == f.item.deep_view(),
        f.deep_view().rel == f.rel@,
{
}

} // verus!
