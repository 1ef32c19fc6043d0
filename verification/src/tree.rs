//! Files of a directory tree as evidence.

use vstd::prelude::*;
use crate::digest;
use crate::digest::file_item;
use crate::lists::{filtered, reversed};
use crate::patterns;
use crate::patterns::{is_selected, Matching};
use crate::plugin::{Item, ItemView};
use crate::sorting;
use crate::sorting::{sort, Ranked};
use crate::text;
use crate::text::{chars_of, decimal, less_text, text_of};

verus! {

/// A path below the root of a tree, its names separated by `/`.
pub struct TreePath {
    pub path: String,
}

impl DeepView for TreePath {
    type V = Seq<char>;

    open spec fn deep_view(&self) -> Seq<char> {
        self.path@
    }
}

/// The path with every separator replaced by the least character, so that
/// paths compare name by name.
pub open spec fn path_key(path: Seq<char>) -> Seq<char> {
    path.map_values(
        |c: char|
            if c == '/' {
                '\0'
            } else {
                c
            },
    )
}

fn key_of(path: &str) -> (r: String)
    ensures
        r@ == path_key(path@),
{
    let v = chars_of(path);
    let mut out: Vec<char> = Vec::new();
    let mut i: usize = 0;
    while i < v.len()
        invariant
            i <= v.len(),
            v@ == path@,
            out@ == path_key(path@).take(i as int),
        decreases v.len() - i,
    {
        out.push(
            if v[i] == '/' {
                '\0'
            } else {
                v[i]
            },
        );
        i += 1;
        assert(out@ =~= path_key(path@).take(i as int));
    }
    assert(path_key(path@).take(i as int) =~= path_key(path@));
    text_of(&out)
}

impl Ranked for TreePath {
    /// Name by name from the root, each by its bytes.
    open spec fn precedes(a: Seq<char>, b: Seq<char>) -> bool {
        text::text_less(path_key(a), path_key(b))
    }

    fn is_before(&self, other: &Self) -> (r: bool) {
        less_text(key_of(self.path.as_str()).as_str(), key_of(other.path.as_str()).as_str())
    }

    proof fn precedence(a: Seq<char>, b: Seq<char>, c: Seq<char>) {
        text::lemma_text_order(path_key(a), path_key(b));
        text::lemma_text_order_transitive(path_key(a), path_key(b), path_key(c));
    }
}

/// The files of a tree in the order in which they are read.
pub open spec fn reading_order(paths: Seq<Seq<char>>) -> Seq<Seq<char>> {
    sorting::sorted::<TreePath>(paths)
}

/// The files of a tree in the order in which they are read.
pub fn in_reading_order(paths: Vec<String>) -> (r: Vec<String>)
    ensures
        r.deep_view() == reading_order(paths.deep_view()),
{
    let mut list: Vec<TreePath> = Vec::new();
    let mut rest = paths;
    let ghost all = paths.deep_view();
    while rest.len() > 0
        invariant
            list.deep_view() + rest.deep_view() == all,
        decreases rest.len(),
    {
        let ghost a = list.deep_view();
        let ghost b = rest.deep_view();
        let path = rest.remove(0);
        assert(path@ == b[0]);
        list.push(TreePath { path });
        assert(list.deep_view() =~= a.push(b[0]));
        assert(rest.deep_view() =~= b.skip(1));
        assert(a.push(b[0]) + b.skip(1) =~= a + b);
    }
    assert(list.deep_view() =~= all);
    let mut sorted_list = sort(list);
    let mut r: Vec<String> = Vec::new();
    let ghost done = sorted_list.deep_view();
    while sorted_list.len() > 0
        invariant
            r.deep_view() + sorted_list.deep_view() == done,
        decreases sorted_list.len(),
    {
        let ghost a = r.deep_view();
        let ghost b = sorted_list.deep_view();
        let p = sorted_list.remove(0);
        assert(p.deep_view() == b[0]);
        r.push(p.path);
        assert(r.deep_view() =~= a.push(b[0]));
        assert(sorted_list.deep_view() =~= b.skip(1));
        assert(a.push(b[0]) + b.skip(1) =~= a + b);
    }
    assert(r.deep_view() =~= done);
    r
}

/// The paths that the patterns select, in reading order.
pub open spec fn selection(
    paths: Seq<Seq<char>>,
    patterns: Seq<Seq<char>>,
    matching: Matching,
) -> Seq<Seq<char>> {
    reading_order(paths).filter(|p: Seq<char>| patterns::selects(patterns, p, matching))
}

/// The paths that the patterns select, in reading order.
pub fn select(paths: Vec<String>, patterns: &Vec<String>, matching: Matching) -> (r: Vec<String>)
    ensures
        r.deep_view() == selection(paths.deep_view(), patterns.deep_view(), matching),
{
    let ghost kept = |p: Seq<char>| patterns::selects(patterns.deep_view(), p, matching);
    let keep = |p: &String| -> (b: bool)
        ensures
            b == kept(p@),
        { is_selected(patterns, p.as_str(), matching) };
    filtered(in_reading_order(paths), keep, Ghost(kept))
}

/// What a filter keeps was there before.
pub proof fn lemma_filter_contained<A>(s: Seq<A>, keep: spec_fn(A) -> bool, i: int)
    requires
        0 <= i < s.filter(keep).len(),
    ensures
        s.contains(s.filter(keep)[i]),
    decreases s.len(),
{
    reveal(Seq::filter);
    if s.len() > 0 {
        let t = s.drop_last();
        if i < t.filter(keep).len() {
            assert(s.filter(keep)[i] == t.filter(keep)[i]);
            lemma_filter_contained(t, keep, i);
            let k = choose|k: int| 0 <= k < t.len() && t[k] == t.filter(keep)[i];
            assert(s[k] == t[k]);
        } else {
            assert(s.filter(keep)[i] == s[s.len() - 1]);
        }
    }
}

/// A filter keeps what it takes as often as it was there, and nothing else.
pub proof fn lemma_filter_counts<A>(s: Seq<A>, keep: spec_fn(A) -> bool, x: A)
    ensures
        s.filter(keep).to_multiset().count(x) == if keep(x) {
            s.to_multiset().count(x)
        } else {
            0
        },
    decreases s.len(),
{
    broadcast use vstd::seq_lib::group_to_multiset_ensures;

    reveal(Seq::filter);
    if s.len() > 0 {
        lemma_filter_counts(s.drop_last(), keep, x);
        assert(s =~= s.drop_last().push(s.last()));
    } else {
        assert(s.filter(keep) =~= s);
        assert(s.to_multiset().count(x) == 0);
    }
}

/// Files on their way to becoming items: the paths still to be read, and what
/// was made of the others.
pub struct Gathering {
    /// Still to be read, the next one last.
    pending: Vec<String>,
    items: Vec<Item>,
    notes: Vec<String>,
}

#[verifier::ext_equal]
pub struct GatheringView {
    /// Still to be read, the next one first.
    pub pending: Seq<Seq<char>>,
    pub items: Seq<ItemView>,
    pub notes: Seq<Seq<char>>,
}

impl View for Gathering {
    type V = GatheringView;

    closed spec fn view(&self) -> GatheringView {
        GatheringView {
            pending: self.pending.deep_view().reverse(),
            items: self.items.deep_view(),
            notes: self.notes.deep_view(),
        }
    }
}

/// `skipped <path> (<size> bytes > <cap> cap)`.
pub open spec fn oversize_note(path: Seq<char>, size: nat, cap: nat) -> Seq<char> {
    "skipped "@ + path + " ("@ + text::decimal_text(size) + " bytes > "@ + text::decimal_text(cap)
        + " cap)"@
}

impl GatheringView {
    /// The next file is left out for its size.
    pub open spec fn skipping(self, size: nat, cap: nat) -> GatheringView {
        GatheringView {
            pending: self.pending.drop_first(),
            items: self.items,
            notes: self.notes.push(oversize_note(self.pending[0], size, cap)),
        }
    }

    /// The next file becomes an item.
    pub open spec fn keeping(self, item: ItemView) -> GatheringView {
        GatheringView {
            pending: self.pending.drop_first(),
            items: self.items.push(item),
            notes: self.notes,
        }
    }
}

impl Gathering {
    /// Begins with these paths to be read, in this order.
    pub fn new(paths: Vec<String>, items: Vec<Item>, notes: Vec<String>) -> (g: Gathering)
        ensures
            g@ == (GatheringView {
                pending: paths.deep_view(),
                items: items.deep_view(),
                notes: notes.deep_view(),
            }),
    {
        let pending = reversed(paths);
        assert(pending.deep_view().reverse() =~= paths.deep_view());
        Gathering { pending, items, notes }
    }

    /// The file to be read next.
    pub fn next_path(&self) -> (r: Option<&String>)
        ensures
            match r {
                Some(p) => self@.pending.len() > 0 && p@ == self@.pending[0],
                None => self@.pending.len() == 0,
            },
    {
        let n = self.pending.len();
        if n == 0 {
            return None;
        }
        assert(self@.pending[0] == self.pending@[n - 1]@);
        Some(&self.pending[n - 1])
    }

    /// Whether the next file is small enough to be read. Where it is not, it is
    /// left out with a note.
    pub fn fits(&mut self, size: u64, cap: u64) -> (r: bool)
        requires
            old(self)@.pending.len() > 0,
        ensures
            r == (size <= cap),
            final(self)@ == if r {
                old(self)@
            } else {
                old(self)@.skipping(size as nat, cap as nat)
            },
    {
        if size <= cap {
            return true;
        }
        let ghost before = self@;
        let ghost p = self.pending.deep_view();
        let ghost n = self.notes.deep_view();
        if let Some(path) = self.pending.pop() {
            assert(path@ == before.pending[0]);
            assert(self.pending.deep_view() =~= p.drop_last());
            assert(p.drop_last().reverse() =~= p.reverse().drop_first());
            let note = "skipped ".to_string().concat(path.as_str()).concat(" (").concat(
                decimal(size).as_str(),
            ).concat(" bytes > ").concat(decimal(cap).as_str()).concat(" cap)");
            self.notes.push(note);
            assert(self.notes.deep_view() =~= n.push(note@));
        }
        false
    }

    /// Takes the bytes of the next file, as an item of this identity and kind.
    pub fn keep_as(&mut self, id: &str, kind: &str, bytes: &[u8], meta: String)
        requires
            old(self)@.pending.len() > 0,
        ensures
            final(self)@ == old(self)@.keeping(
                digest::file_item_view(id@, kind@, old(self)@.pending[0], bytes@, meta@),
            ),
    {
        let ghost before = self@;
        let ghost p = self.pending.deep_view();
        let ghost n = self.items.deep_view();
        if let Some(path) = self.pending.pop() {
            assert(path@ == before.pending[0]);
            assert(self.pending.deep_view() =~= p.drop_last());
            assert(p.drop_last().reverse() =~= p.reverse().drop_first());
            let item = file_item(id, kind, path.as_str(), bytes, meta);
            self.items.push(item);
            assert(self.items.deep_view() =~= n.push(item.deep_view()));
        }
    }

    /// What became of the files.
    pub fn finish(self) -> (r: (Vec<Item>, Vec<String>))
        ensures
            r.0.deep_view() == self@.items,
            r.1.deep_view() == self@.notes,
    {
        (self.items, self.notes)
    }
}

/// What is known of a file once it was looked at: its size, and the item that
/// its bytes make.
pub struct FileFact {
    pub size: nat,
    pub item: ItemView,
}

/// The files dealt with one after the other, those over the cap left out.
pub open spec fn gathered(g: GatheringView, facts: Seq<FileFact>, cap: nat) -> GatheringView
    decreases facts.len(),
{
    if facts.len() == 0 {
        g
    } else if facts[0].size <= cap {
        gathered(g.keeping(facts[0].item), facts.drop_first(), cap)
    } else {
        gathered(g.skipping(facts[0].size, cap), facts.drop_first(), cap)
    }
}

/// The items of the files within the cap, in order.
pub open spec fn kept(facts: Seq<FileFact>, cap: nat) -> Seq<ItemView>
    decreases facts.len(),
{
    if facts.len() == 0 {
        Seq::empty()
    } else if facts[0].size <= cap {
        seq![facts[0].item] + kept(facts.drop_first(), cap)
    } else {
        kept(facts.drop_first(), cap)
    }
}

/// A note for each file over the cap, in order.
pub open spec fn noted(paths: Seq<Seq<char>>, facts: Seq<FileFact>, cap: nat) -> Seq<Seq<char>>
    decreases facts.len(),
{
    if facts.len() == 0 {
        Seq::empty()
    } else if facts[0].size <= cap {
        noted(paths.drop_first(), facts.drop_first(), cap)
    } else {
        seq![oversize_note(paths[0], facts[0].size, cap)] + noted(
            paths.drop_first(),
            facts.drop_first(),
            cap,
        )
    }
}

/// Every selected file becomes an item or a note: those within the cap items,
/// those over it notes, each in reading order, none in silence.
pub proof fn law_no_file_is_lost(g: GatheringView, facts: Seq<FileFact>, cap: nat)
    requires
        facts.len() == g.pending.len(),
    ensures
        gathered(g, facts, cap) == (GatheringView {
            pending: Seq::empty(),
            items: g.items + kept(facts, cap),
            notes: g.notes + noted(g.pending, facts, cap),
        }),
        kept(facts, cap).len() + noted(g.pending, facts, cap).len() == facts.len(),
    decreases facts.len(),
{
    if facts.len() == 0 {
        assert(g.pending =~= Seq::empty());
        assert(g.items + kept(facts, cap) =~= g.items);
        assert(g.notes + noted(g.pending, facts, cap) =~= g.notes);
    } else if facts[0].size <= cap {
        let next = g.keeping(facts[0].item);
        law_no_file_is_lost(next, facts.drop_first(), cap);
        assert(next.items + kept(facts.drop_first(), cap) =~= g.items + kept(facts, cap));
    } else {
        let next = g.skipping(facts[0].size, cap);
        law_no_file_is_lost(next, facts.drop_first(), cap);
        assert(next.notes + noted(next.pending, facts.drop_first(), cap) =~= g.notes + noted(
            g.pending,
            facts,
            cap,
        ));
    }
}

/// Every path that the patterns select is read, and no other.
pub proof fn law_selection_is_exact(
    paths: Seq<Seq<char>>,
    patterns: Seq<Seq<char>>,
    matching: Matching,
    path: Seq<char>,
)
    ensures
        selection(paths, patterns, matching).contains(path) <==> (paths.contains(path)
            && patterns::selects(patterns, path, matching)),
{
    broadcast use vstd::seq_lib::group_to_multiset_ensures;

    let keep = |p: Seq<char>| patterns::selects(patterns, p, matching);
    let ordered = reading_order(paths);
    let chosen = ordered.filter(keep);
    sorting::lemma_sorted::<TreePath>(paths);
    assert(ordered.contains(path) <==> paths.contains(path)) by {
        assert(ordered.contains(path) <==> ordered.to_multiset().count(path) > 0);
        assert(paths.contains(path) <==> paths.to_multiset().count(path) > 0);
    }
    if chosen.contains(path) {
        let i = choose|i: int| 0 <= i < chosen.len() && chosen[i] == path;
        ordered.lemma_filter_pred(keep, i);
        lemma_filter_contained(ordered, keep, i);
    }
    if ordered.contains(path) && keep(path) {
        let i = choose|i: int| 0 <= i < ordered.len() && ordered[i] == path;
        ordered.lemma_filter_contains(keep, i);
    }
}

/// Of the files dealt with exactly those within the cap become items, each its own, and
/// exactly those over it notes, each with its own path and size, in their order; a file of
/// exactly the cap is within it.
pub proof fn law_the_cap_decides_alone(paths: Seq<Seq<char>>, facts: Seq<FileFact>, cap: nat)
    requires
        paths.len() == facts.len(),
    ensures
        kept(facts, cap) == facts.filter(|f: FileFact| f.size <= cap).map_values(
            |f: FileFact| f.item,
        ),
        noted(paths, facts, cap) == Seq::new(
            facts.len(),
            |i: int| (paths[i], facts[i].size),
        ).filter(|n: (Seq<char>, nat)| n.1 > cap).map_values(
            |n: (Seq<char>, nat)|
                "skipped "@ + n.0 + " ("@ + text::decimal_text(n.1) + " bytes > "@
                    + text::decimal_text(cap) + " cap)"@,
        ),
    decreases facts.len(),
{
    let small = |f: FileFact| f.size <= cap;
    let item = |f: FileFact| f.item;
    let large = |n: (Seq<char>, nat)| n.1 > cap;
    let note = |n: (Seq<char>, nat)|
        "skipped "@ + n.0 + " ("@ + text::decimal_text(n.1) + " bytes > "@ + text::decimal_text(
            cap,
        ) + " cap)"@;
    let pairs = Seq::new(facts.len(), |i: int| (paths[i], facts[i].size));
    if facts.len() == 0 {
        reveal(Seq::filter);
        assert(facts.filter(small) =~= Seq::empty() && pairs.filter(large) =~= Seq::empty());
        assert(kept(facts, cap) =~= facts.filter(small).map_values(item));
        assert(noted(paths, facts, cap) =~= pairs.filter(large).map_values(note));
    } else {
        let rest = facts.drop_first();
        law_the_cap_decides_alone(paths.drop_first(), rest, cap);
        let more = Seq::new(rest.len(), |i: int| (paths.drop_first()[i], rest[i].size));
        let one = seq![facts[0]];
        let first = seq![(paths[0], facts[0].size)];
        assert(facts =~= one + rest);
        assert(pairs =~= first + more);
        Seq::filter_distributes_over_add(one, rest, small);
        Seq::filter_distributes_over_add(first, more, large);
        assert(one.drop_last() =~= Seq::empty() && first.drop_last() =~= Seq::empty());
        reveal_with_fuel(Seq::filter, 2);
        assert(kept(facts, cap) =~= facts.filter(small).map_values(item));
        assert(noted(paths, facts, cap) =~= pairs.filter(large).map_values(note));
    }
}

/// A file that becomes an item and one that is left out both leave the others to be read
/// in their order; the first adds its item and no note, the second a note and no item.
pub proof fn law_one_file_at_a_time(g: GatheringView, item: ItemView, size: nat, cap: nat)
    requires
        g.pending.len() > 0,
    ensures
        g.keeping(item).pending == g.pending.skip(1),
        g.keeping(item).items == g.items + seq![item],
        g.keeping(item).notes == g.notes,
        g.skipping(size, cap).pending == g.pending.skip(1),
        g.skipping(size, cap).items == g.items,
        g.skipping(size, cap).notes.len() == g.notes.len() + 1,
        g.skipping(size, cap).notes.drop_last() == g.notes,
        text::starts_with(g.skipping(size, cap).notes.last(), "skipped "@ + g.pending[0] + " ("@),
{
    assert(g.keeping(item).pending =~= g.pending.skip(1));
    assert(g.keeping(item).items =~= g.items + seq![item]);
    assert(g.skipping(size, cap).notes.drop_last() =~= g.notes);
    let note = g.skipping(size, cap).notes.last();
    let head = "skipped "@ + g.pending[0] + " ("@;
    assert(note.take(head.len() as int) =~= head);
}

/// What two byte sequences begin with alike does not matter to their order.
pub proof fn lemma_bytes_less_prefix(p: Seq<u8>, a: Seq<u8>, b: Seq<u8>)
    ensures
        text::bytes_less(p + a, p + b) == text::bytes_less(a, b),
    decreases p.len(),
{
    if p.len() == 0 {
        assert(p + a =~= a && p + b =~= b);
    } else {
        assert((p + a).drop_first() =~= p.drop_first() + a);
        assert((p + b).drop_first() =~= p.drop_first() + b);
        lemma_bytes_less_prefix(p.drop_first(), a, b);
    }
}

/// Files are read in the order of their paths, each as often as it is there: what lies
/// below a directory comes before what merely begins with the name of that directory,
/// and otherwise, where no path holds a separator, the order is that of the texts.
pub proof fn law_files_are_read_in_order(
    paths: Seq<Seq<char>>,
    dir: Seq<char>,
    below: Seq<char>,
    c: char,
    beside: Seq<char>,
)
    ensures
        reading_order(paths).to_multiset() == paths.to_multiset(),
        forall|i: int, j: int|
            0 <= i < j < reading_order(paths).len() ==> !TreePath::precedes(
                #[trigger] reading_order(paths)[j],
                #[trigger] reading_order(paths)[i],
            ),
        c != '/' && c != '\0' ==> TreePath::precedes(
            dir + seq!['/'] + below,
            dir + seq![c] + beside,
        ),
        !dir.contains('/') && !below.contains('/') ==> TreePath::precedes(dir, below)
            == text::text_less(dir, below),
{
    sorting::lemma_sorted::<TreePath>(paths);
    let a = dir + seq!['/'] + below;
    let b = dir + seq![c] + beside;
    assert(path_key(a) =~= path_key(dir) + (seq!['\0'] + path_key(below)));
    assert(path_key(b) =~= path_key(dir) + (path_key(seq![c]) + path_key(beside)));
    if c != '/' && c != '\0' {
        assert(path_key(seq![c]) =~= seq![c]);
        let x = seq!['\0'] + path_key(below);
        let y = seq![c] + path_key(beside);
        crate::graph::urls::lemma_encode_utf8_append(path_key(dir), x);
        crate::graph::urls::lemma_encode_utf8_append(path_key(dir), y);
        lemma_bytes_less_prefix(
            vstd::utf8::encode_utf8(path_key(dir)),
            vstd::utf8::encode_utf8(x),
            vstd::utf8::encode_utf8(y),
        );
        lemma_least_char(x, y);
    }
    if !dir.contains('/') && !below.contains('/') {
        assert(path_key(dir) =~= dir);
        assert(path_key(below) =~= below);
    }
}

proof fn lemma_least_char(x: Seq<char>, y: Seq<char>)
    requires
        x.len() > 0,
        y.len() > 0,
        x[0] == '\0',
        y[0] != '\0',
    ensures
        text::text_less(x, y),
{
    let a = vstd::utf8::encode_utf8(x);
    let b = vstd::utf8::encode_utf8(y);
    vstd::utf8::encode_utf8_first_scalar(x);
    vstd::utf8::encode_utf8_first_scalar(y);
    assert(a[0] == 0 && b[0] != 0) by {
        let s = vstd::utf8::encode_scalar(x[0] as u32);
        let t = vstd::utf8::encode_scalar(y[0] as u32);
        assert(a[0] == s[0]);
        assert(b[0] == t[0]);
        lemma_first_byte(x[0]);
        lemma_first_byte(y[0]);
    }
}

proof fn lemma_first_byte(c: char)
    ensures
        vstd::utf8::encode_scalar(c as u32).len() > 0,
        vstd::utf8::encode_scalar(c as u32)[0] == 0 <==> c == '\0',
{
    let s = c as u32;
    assert(s <= 0x7Fu32 ==> (s & 0x7F) == s) by (bit_vector);
    assert(0xC0u8 | ((s >> 6) & 0x1F) as u8 != 0) by (bit_vector);
    assert(0xE0u8 | ((s >> 12) & 0x0F) as u8 != 0) by (bit_vector);
    assert(0xF0u8 | ((s >> 18) & 0x07) as u8 != 0) by (bit_vector);
}

} // verus!
