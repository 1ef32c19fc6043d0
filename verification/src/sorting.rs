//! Stable sorting.

use vstd::prelude::*;

verus! {

/// Values with an order of precedence. Two values neither of which precedes
/// the other rank alike.
pub trait Ranked: DeepView + Sized {
    /// Whether `a` belongs before `b`.
    spec fn precedes(a: Self::V, b: Self::V) -> bool;

    /// Whether `self` belongs before `other`.
    fn is_before(&self, other: &Self) -> (r: bool)
        ensures
            r == Self::precedes(self.deep_view(), other.deep_view()),
    ;

    /// Precedence is a strict order, and ranking alike is transitive.
    proof fn precedence(a: Self::V, b: Self::V, c: Self::V)
        ensures
            !Self::precedes(a, a),
            !(Self::precedes(a, b) && Self::precedes(b, a)),
            Self::precedes(a, b) && Self::precedes(b, c) ==> Self::precedes(a, c),
            !Self::precedes(b, a) && !Self::precedes(c, b) ==> !Self::precedes(c, a),
    ;
}

/// `x` put into a sorted sequence, behind every value that it does not precede.
pub open spec fn inserted<T: Ranked>(s: Seq<T::V>, x: T::V) -> Seq<T::V>
    decreases s.len(),
{
    if s.len() > 0 && T::precedes(x, s.last()) {
        inserted::<T>(s.drop_last(), x).push(s.last())
    } else {
        s.push(x)
    }
}

/// The values in order of precedence, those that rank alike in the order in
/// which they came.
pub open spec fn sorted<T: Ranked>(s: Seq<T::V>) -> Seq<T::V>
    decreases s.len(),
{
    if s.len() == 0 {
        s
    } else {
        inserted::<T>(sorted::<T>(s.drop_last()), s.last())
    }
}

/// No value stands behind one that it precedes.
pub open spec fn in_order<T: Ranked>(s: Seq<T::V>) -> bool {
    forall|i: int, j: int| 0 <= i < j < s.len() ==> !T::precedes(#[trigger] s[j], #[trigger] s[i])
}

proof fn lemma_inserted<T: Ranked>(s: Seq<T::V>, x: T::V)
    requires
        in_order::<T>(s),
    ensures
        in_order::<T>(inserted::<T>(s, x)),
        inserted::<T>(s, x).to_multiset() == s.to_multiset().insert(x),
        inserted::<T>(s, x).len() == s.len() + 1,
        forall|i: int|
            0 <= i < inserted::<T>(s, x).len() ==> (#[trigger] inserted::<T>(s, x)[i] == x
                || s.contains(inserted::<T>(s, x)[i])),
    decreases s.len(),
{
    broadcast use vstd::seq_lib::group_to_multiset_ensures;

    let r = inserted::<T>(s, x);
    if s.len() > 0 && T::precedes(x, s.last()) {
        let t = s.drop_last();
        lemma_inserted::<T>(t, x);
        let u = inserted::<T>(t, x);
        assert(s =~= t.push(s.last()));
        assert forall|i: int| 0 <= i < r.len() implies (#[trigger] r[i] == x || s.contains(
            r[i],
        )) by {
            if i < u.len() {
                assert(r[i] == u[i]);
                if t.contains(u[i]) {
                    let k = choose|k: int| 0 <= k < t.len() && t[k] == u[i];
                    assert(s[k] == u[i]);
                }
            } else {
                assert(r[i] == s[s.len() - 1]);
            }
        }
        assert forall|i: int, j: int| 0 <= i < j < r.len() implies !T::precedes(
            #[trigger] r[j],
            #[trigger] r[i],
        ) by {
            if j < u.len() {
                assert(r[j] == u[j] && r[i] == u[i]);
            } else {
                assert(r[j] == s.last());
                assert(r[i] == u[i]);
                if u[i] == x {
                    T::precedence(x, s.last(), x);
                } else {
                    let k = choose|k: int| 0 <= k < t.len() && t[k] == u[i];
                    assert(s[k] == u[i]);
                    assert(s[s.len() - 1] == s.last());
                }
            }
        }
        assert(r.to_multiset() =~= s.to_multiset().insert(x));
    } else {
        assert forall|i: int| 0 <= i < r.len() implies (#[trigger] r[i] == x || s.contains(
            r[i],
        )) by {
            if i < s.len() {
                assert(r[i] == s[i]);
            }
        }
        assert forall|i: int, j: int| 0 <= i < j < r.len() implies !T::precedes(
            #[trigger] r[j],
            #[trigger] r[i],
        ) by {
            if j < s.len() {
                assert(r[j] == s[j] && r[i] == s[i]);
            } else {
                assert(r[j] == x && r[i] == s[i]);
                let last = s[s.len() - 1];
                T::precedence(s[i], last, x);
                T::precedence(last, last, last);
            }
        }
    }
}

/// Sorting keeps the values, each as often as it came, and leaves none behind
/// one that it precedes.
pub proof fn lemma_sorted<T: Ranked>(s: Seq<T::V>)
    ensures
        sorted::<T>(s).to_multiset() == s.to_multiset(),
        sorted::<T>(s).len() == s.len(),
        in_order::<T>(sorted::<T>(s)),
    decreases s.len(),
{
    broadcast use vstd::seq_lib::group_to_multiset_ensures;

    if s.len() > 0 {
        lemma_sorted::<T>(s.drop_last());
        lemma_inserted::<T>(sorted::<T>(s.drop_last()), s.last());
        assert(s =~= s.drop_last().push(s.last()));
    }
}

/// A sequence that is in order already is left as it is.
pub proof fn lemma_sorted_fixpoint<T: Ranked>(s: Seq<T::V>)
    requires
        in_order::<T>(s),
    ensures
        sorted::<T>(s) == s,
    decreases s.len(),
{
    if s.len() > 0 {
        let t = s.drop_last();
        assert forall|i: int, j: int| 0 <= i < j < t.len() implies !T::precedes(
            #[trigger] t[j],
            #[trigger] t[i],
        ) by {
            assert(t[j] == s[j] && t[i] == s[i]);
        }
        lemma_sorted_fixpoint::<T>(t);
        if t.len() > 0 {
            assert(t.last() == s[s.len() - 2]);
            assert(s.last() == s[s.len() - 1]);
        }
        assert(t.push(s.last()) =~= s);
    }
}

fn insert_sorted<T: Ranked>(v: &mut Vec<T>, x: T)
    ensures
        final(v).deep_view() == inserted::<T>(old(v).deep_view(), x.deep_view()),
{
    let mut i: usize = v.len();
    let ghost s = v.deep_view();
    let ghost y = x.deep_view();
    assert(s.take(i as int) + s.skip(i as int) =~= s);
    assert(inserted::<T>(s.take(i as int), y) + s.skip(i as int) =~= inserted::<T>(s, y));
    while i > 0 && x.is_before(&v[i - 1])
        invariant
            i <= v.len(),
            s == v.deep_view(),
            y == x.deep_view(),
            inserted::<T>(s.take(i as int), y) + s.skip(i as int) == inserted::<T>(s, y),
        decreases i,
    {
        let ghost before = s.take(i as int);
        assert(before.last() == v@[i - 1].deep_view());
        assert(before.drop_last() =~= s.take(i - 1));
        assert(inserted::<T>(before, y) == inserted::<T>(s.take(i - 1), y).push(before.last()));
        assert(inserted::<T>(s.take(i - 1), y) + s.skip(i - 1) =~= inserted::<T>(before, y)
            + s.skip(i as int));
        i -= 1;
    }
    let ghost before = s.take(i as int);
    assert(inserted::<T>(before, y) == before.push(y)) by {
        if i > 0 {
            assert(before.last() == v@[i - 1].deep_view());
        }
    }
    v.insert(i, x);
    assert(v.deep_view() =~= before.push(y) + s.skip(i as int));
}

/// The values in order of precedence, those that rank alike in the order in
/// which they came.
pub fn sort<T: Ranked>(v: Vec<T>) -> (r: Vec<T>)
    ensures
        r.deep_view() == sorted::<T>(v.deep_view()),
{
    let ghost all = v.deep_view();
    let mut rest = v;
    let mut r: Vec<T> = Vec::new();
    let ghost mut n: int = 0;
    assert(r.deep_view() =~= sorted::<T>(all.take(0)));
    assert(all.skip(0) =~= all);
    while rest.len() > 0
        invariant
            0 <= n <= all.len(),
            rest.deep_view() == all.skip(n),
            r.deep_view() == sorted::<T>(all.take(n)),
        decreases rest.len(),
    {
        let ghost left = rest.deep_view();
        let x = rest.remove(0);
        assert(x.deep_view() == left[0]);
        assert(rest.deep_view() =~= left.skip(1));
        insert_sorted(&mut r, x);
        proof {
            assert(all.take(n + 1).drop_last() =~= all.take(n));
            assert(all.take(n + 1).last() == all.skip(n)[0]);
            assert(all.skip(n).skip(1) =~= all.skip(n + 1));
            n = n + 1;
        }
    }
    assert(all.skip(n).len() == 0);
    assert(all.take(n) =~= all);
    r
}

proof fn lemma_inserted_alike<T: Ranked>(s: Seq<T::V>, x: T::V, k: T::V)
    requires
        in_order::<T>(s),
    ensures
        ({
            let alike = |y: T::V| !T::precedes(y, k) && !T::precedes(k, y);
            inserted::<T>(s, x).filter(alike) == s.push(x).filter(alike)
        }),
    decreases s.len(),
{
    reveal(Seq::filter);
    let alike = |y: T::V| !T::precedes(y, k) && !T::precedes(k, y);
    assert(s.push(x).drop_last() =~= s);
    if s.len() > 0 && T::precedes(x, s.last()) {
        let t = s.drop_last();
        assert forall|i: int, j: int| 0 <= i < j < t.len() implies !T::precedes(
            #[trigger] t[j],
            #[trigger] t[i],
        ) by {
            assert(t[j] == s[j] && t[i] == s[i]);
        }
        lemma_inserted_alike::<T>(t, x, k);
        let u = inserted::<T>(t, x);
        let r = inserted::<T>(s, x);
        assert(r.drop_last() =~= u);
        assert(t.push(x).drop_last() =~= t);
        assert(r.last() == s.last());
        T::precedence(s.last(), k, x);
        assert(!(alike(x) && alike(s.last())));
        assert(r.filter(alike) == if alike(s.last()) {
            u.filter(alike).push(s.last())
        } else {
            u.filter(alike)
        });
        assert(t.push(x).filter(alike) == if alike(x) {
            t.filter(alike).push(x)
        } else {
            t.filter(alike)
        });
        assert(s.filter(alike) == if alike(s.last()) {
            t.filter(alike).push(s.last())
        } else {
            t.filter(alike)
        });
        assert(s.push(x).filter(alike) == if alike(x) {
            s.filter(alike).push(x)
        } else {
            s.filter(alike)
        });
    }
}

/// Sorting is stable: the values that rank alike stand in the order in which they came.
pub proof fn law_sorting_is_stable<T: Ranked>(s: Seq<T::V>, k: T::V)
    ensures
        sorted::<T>(s).filter(|y: T::V| !T::precedes(y, k) && !T::precedes(k, y)) == s.filter(
            |y: T::V| !T::precedes(y, k) && !T::precedes(k, y),
        ),
    decreases s.len(),
{
    reveal(Seq::filter);
    let alike = |y: T::V| !T::precedes(y, k) && !T::precedes(k, y);
    if s.len() > 0 {
        let t = s.drop_last();
        law_sorting_is_stable::<T>(t, k);
        lemma_sorted::<T>(t);
        lemma_inserted_alike::<T>(sorted::<T>(t), s.last(), k);
        assert(sorted::<T>(t).push(s.last()).drop_last() =~= sorted::<T>(t));
    }
}

} // verus!
