//! Lists turned around and thinned out.

use vstd::prelude::*;

verus! {

/// A list from its end to its beginning.
pub(crate) fn reversed<T>(list: Vec<T>) -> (r: Vec<T>)
    ensures
        r@ == list@.reverse(),
{
    let mut rest = list;
    let mut r: Vec<T> = Vec::new();
    while rest.len() > 0
        invariant
            r@ + rest@.reverse() == list@.reverse(),
        decreases rest.len(),
    {
        let ghost a = rest@;
        let ghost b = r@;
        if let Some(item) = rest.pop() {
            r.push(item);
            assert(b.push(item) + a.drop_last().reverse() =~= b + a.reverse());
        }
    }
    r
}

/// The items that `keep` takes, in their order; `kept` is what it takes.
pub(crate) fn filtered<T: DeepView, F: Fn(&T) -> bool>(
    list: Vec<T>,
    keep: F,
    Ghost(kept): Ghost<spec_fn(T::V) -> bool>,
) -> (r: Vec<T>)
    requires
        forall|item: &T| #[trigger] keep.requires((item,)),
        forall|item: &T, b: bool| #[trigger]
            keep.ensures((item,), b) ==> b == kept(item.deep_view()),
    ensures
        r@ == list@.filter(|item: T| kept(item.deep_view())),
        r.deep_view() == list.deep_view().filter(kept),
{
    let ghost all = list@;
    let ghost views = list.deep_view();
    let ghost takes = |item: T| kept(item.deep_view());
    let ghost mut n: int = 0;
    let mut rest = reversed(list);
    let mut r: Vec<T> = Vec::new();
    proof {
        reveal(Seq::filter);
    }
    assert(r.deep_view() =~= views.take(0).filter(kept));
    assert(r@ =~= all.take(0).filter(takes));
    while rest.len() > 0
        invariant
            0 <= n <= all.len(),
            n + rest.len() == all.len(),
            rest@ == all.reverse().take(rest.len() as int),
            all == list@,
            views == list.deep_view(),
            takes == |item: T| kept(item.deep_view()),
            forall|item: &T| #[trigger] keep.requires((item,)),
            forall|item: &T, b: bool| #[trigger]
                keep.ensures((item,), b) ==> b == kept(item.deep_view()),
            r@ == all.take(n).filter(takes),
            r.deep_view() == views.take(n).filter(kept),
        decreases rest.len(),
    {
        let ghost a = rest@;
        let ghost before = r.deep_view();
        if let Some(item) = rest.pop() {
            assert(item == all[n]);
            assert(all.take(n + 1).drop_last() =~= all.take(n));
            assert(views.take(n + 1).drop_last() =~= views.take(n));
            assert(views.take(n + 1).last() == item.deep_view());
            assert(rest@ =~= all.reverse().take(rest.len() as int));
            let taken = keep(&item);
            if taken {
                r.push(item);
                assert(r.deep_view() =~= before.push(item.deep_view()));
            }
            proof {
                reveal(Seq::filter);
                n = n + 1;
            }
        }
    }
    assert(all.take(n) =~= all);
    assert(views.take(n) =~= views);
    r
}

/// Two lists with the same items, each as often, hold the same number of any sort.
pub(crate) proof fn lemma_same_count<A>(a: Seq<A>, b: Seq<A>, keep: spec_fn(A) -> bool)
    requires
        a.to_multiset() == b.to_multiset(),
    ensures
        a.filter(keep).len() == b.filter(keep).len(),
    decreases a.len(),
{
    broadcast use vstd::seq_lib::group_to_multiset_ensures;

    reveal(Seq::filter);
    assert(a.to_multiset().len() == a.len() && b.to_multiset().len() == b.len());
    if a.len() > 0 {
        let x = a.last();
        let t = a.drop_last();
        assert(a =~= t.push(x));
        assert(a.to_multiset().count(x) > 0);
        assert(b.contains(x));
        let i = choose|i: int| 0 <= i < b.len() && b[i] == x;
        let u = b.remove(i);
        assert(t.to_multiset() =~= a.to_multiset().remove(x));
        assert(u.to_multiset() =~= b.to_multiset().remove(x));
        lemma_same_count(t, u, keep);
        let front = b.take(i);
        let back = b.skip(i + 1);
        assert(b =~= front + seq![x] + back);
        assert(u =~= front + back);
        Seq::filter_distributes_over_add(front, back, keep);
        Seq::filter_distributes_over_add(front + seq![x], back, keep);
        Seq::filter_distributes_over_add(front, seq![x], keep);
        assert(seq![x].drop_last() =~= Seq::empty());
        reveal_with_fuel(Seq::filter, 2);
    }
}

/// Where two places hold items of a sort, there are at least two of it.
pub(crate) proof fn lemma_two_kept<A>(s: Seq<A>, keep: spec_fn(A) -> bool, a: int, b: int)
    requires
        0 <= a < b < s.len(),
        keep(s[a]),
        keep(s[b]),
    ensures
        s.filter(keep).len() >= 2,
{
    let front = s.take(b);
    let back = s.skip(b);
    assert(s =~= front + back);
    Seq::filter_distributes_over_add(front, back, keep);
    front.lemma_filter_contains(keep, a);
    back.lemma_filter_contains(keep, 0);
    assert(front.filter(keep).contains(front[a]));
    assert(back.filter(keep).contains(back[0]));
}

/// Where no two places hold items of a sort, there is at most one of it.
pub(crate) proof fn lemma_at_most_one<A>(s: Seq<A>, keep: spec_fn(A) -> bool)
    requires
        forall|i: int, j: int|
            0 <= i < j < s.len() && keep(#[trigger] s[i]) ==> !keep(#[trigger] s[j]),
    ensures
        s.filter(keep).len() <= 1,
    decreases s.len(),
{
    reveal(Seq::filter);
    if s.len() > 0 {
        let t = s.drop_last();
        assert forall|i: int, j: int| 0 <= i < j < t.len() && keep(#[trigger] t[i]) implies !keep(
            #[trigger] t[j],
        ) by {
            assert(t[i] == s[i] && t[j] == s[j]);
        }
        lemma_at_most_one(t, keep);
        if keep(s.last()) && t.filter(keep).len() > 0 {
            crate::tree::lemma_filter_contained(t, keep, 0);
            t.lemma_filter_pred(keep, 0);
            let y = t.filter(keep)[0];
            let i = choose|i: int| 0 <= i < t.len() && t[i] == y;
            assert(keep(s[i]) && keep(s[s.len() - 1]));
        }
    }
}

} // verus!
