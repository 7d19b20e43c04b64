//! Ordering of what extraction has gathered: page by page, whatever order
//! the pages were worked in.

use vstd::prelude::*;
use vstd::seq_lib::{to_multiset_build, to_multiset_remove};

verus! {

/// A value with a place in the output: the number it is ordered by.
pub trait Ranked {
    /// The number that the value is ordered by.
    spec fn sort_key(&self) -> int;

    /// Computes the number that the value is ordered by.
    fn key(&self) -> (k: u64)
        ensures
            k == self.sort_key(),
    ;
}

/// `s` stands in ascending order of its keys.
pub open spec fn is_sorted<T: Ranked>(s: Seq<T>) -> bool {
    forall|i: int, j: int| 0 <= i <= j < s.len() ==> s[i].sort_key() <= s[j].sort_key()
}

/// The ordered sequence `s` with `x` put in behind the values whose keys
/// are not greater than its own.
pub open spec fn inserted<T: Ranked>(s: Seq<T>, x: T) -> Seq<T>
    decreases s.len(),
{
    if s.len() == 0 || s.last().sort_key() <= x.sort_key() {
        s.push(x)
    } else {
        inserted(s.drop_last(), x).push(s.last())
    }
}

/// The first `n` values of `s` in ascending order of their keys; values with
/// the same key keep the order they have in `s`.
pub open spec fn stable_sorted<T: Ranked>(s: Seq<T>, n: int) -> Seq<T>
    decreases n,
{
    if n <= 0 {
        Seq::empty()
    } else {
        inserted(stable_sorted(s, n - 1), s[n - 1])
    }
}

/// All of `s` in ascending order of its keys.
pub open spec fn sorted<T: Ranked>(s: Seq<T>) -> Seq<T> {
    stable_sorted(s, s.len() as int)
}

/// Putting a value into an ordered sequence gives an ordered sequence with
/// one value more, and with the same values otherwise.
pub proof fn lemma_inserted<T: Ranked>(s: Seq<T>, x: T)
    requires
        is_sorted(s),
    ensures
        is_sorted(inserted(s, x)),
        inserted(s, x).len() == s.len() + 1,
        inserted(s, x).to_multiset() == s.to_multiset().insert(x),
        forall|i: int|
            0 <= i < inserted(s, x).len() ==> (#[trigger] inserted(s, x)[i] == x || s.contains(
                inserted(s, x)[i],
            )),
    decreases s.len(),
{
    broadcast use vstd::multiset::group_multiset_axioms;

    if s.len() == 0 || s.last().sort_key() <= x.sort_key() {
        to_multiset_build(s, x);
        let now = s.push(x);
        assert forall|i: int| 0 <= i < now.len() implies (#[trigger] now[i] == x || s.contains(
            now[i],
        )) by {
            if i < s.len() {
                assert(s[i] == now[i]);
            }
        }
    } else {
        let front = s.drop_last();
        lemma_inserted(front, x);
        let inner = inserted(front, x);
        let now = inner.push(s.last());
        to_multiset_build(inner, s.last());
        to_multiset_build(front, s.last());
        assert(front.push(s.last()) == s);
        assert(now.to_multiset() =~= s.to_multiset().insert(x));
        assert forall|i: int, j: int| 0 <= i <= j < now.len() implies now[i].sort_key()
            <= now[j].sort_key() by {
            if j == inner.len() {
                if i < inner.len() {
                    assert(inner[i] == x || front.contains(inner[i]));
                    if inner[i] != x {
                        let at = choose|k: int| 0 <= k < front.len() && front[k] == inner[i];
                        assert(s[at] == inner[i]);
                    }
                }
            }
        }
        assert forall|i: int| 0 <= i < now.len() implies (#[trigger] now[i] == x || s.contains(
            now[i],
        )) by {
            if i < inner.len() {
                assert(inner[i] == x || front.contains(inner[i]));
                if inner[i] != x {
                    let at = choose|k: int| 0 <= k < front.len() && front[k] == inner[i];
                    assert(s[at] == inner[i]);
                }
            } else {
                assert(s[s.len() - 1] == now[i]);
            }
        }
    }
}

/// Ordering keeps every value and loses none: the result is in ascending
/// order of the keys and holds the first `n` values of `s`, each as often
/// as they do.
pub proof fn lemma_stable_sorted<T: Ranked>(s: Seq<T>, n: int)
    requires
        0 <= n <= s.len(),
    ensures
        is_sorted(stable_sorted(s, n)),
        stable_sorted(s, n).len() == n,
        stable_sorted(s, n).to_multiset() == s.take(n).to_multiset(),
    decreases n,
{
    broadcast use vstd::multiset::group_multiset_axioms;

    if n > 0 {
        lemma_stable_sorted(s, n - 1);
        lemma_inserted(stable_sorted(s, n - 1), s[n - 1]);
        to_multiset_build(s.take(n - 1), s[n - 1]);
        assert(s.take(n - 1).push(s[n - 1]) == s.take(n));
    } else {
        assert(s.take(0) =~= Seq::<T>::empty());
    }
}

/// Values that stand in order already stay where they are.
pub proof fn lemma_sorted_stays<T: Ranked>(s: Seq<T>, n: int)
    requires
        0 <= n <= s.len(),
        is_sorted(s),
    ensures
        stable_sorted(s, n) == s.take(n),
    decreases n,
{
    if n > 0 {
        lemma_sorted_stays(s, n - 1);
        let front = s.take(n - 1);
        if front.len() > 0 {
            assert(front.last() == s[n - 2]);
        }
        assert(front.push(s[n - 1]) == s.take(n));
    } else {
        assert(s.take(0) =~= Seq::<T>::empty());
    }
}

/// No two values of `s` have the same key.
pub open spec fn has_distinct_keys<T: Ranked>(s: Seq<T>) -> bool {
    forall|i: int, j: int| 0 <= i < j < s.len() ==> s[i].sort_key() != s[j].sort_key()
}

/// Each value of `s` has a lesser key than the next.
pub open spec fn is_strictly_sorted<T: Ranked>(s: Seq<T>) -> bool {
    forall|i: int, j: int| 0 <= i < j < s.len() ==> s[i].sort_key() < s[j].sort_key()
}

/// A value that stands at two places is held at least twice.
proof fn lemma_twice_held<T>(s: Seq<T>, i: int, j: int)
    requires
        0 <= i < j < s.len(),
        s[i] == s[j],
    ensures
        s.to_multiset().count(s[i]) >= 2,
    decreases s.len(),
{
    broadcast use vstd::multiset::group_multiset_axioms;

    let front = s.drop_last();
    assert(front.push(s.last()) == s);
    to_multiset_build(front, s.last());
    front.to_multiset_ensures();
    if j == s.len() - 1 {
        assert(front[i] == s[i]);
        assert(front.contains(s[i]));
    } else {
        assert(front[i] == s[i] && front[j] == s[j]);
        lemma_twice_held(front, i, j);
    }
}

/// Values that are held as often by `b` as by `a`, where `a` has no two
/// with the same key, have no two with the same key in `b` either.
proof fn lemma_distinct_keys_carry_over<T: Ranked>(a: Seq<T>, b: Seq<T>)
    requires
        a.to_multiset() == b.to_multiset(),
        has_distinct_keys(a),
    ensures
        has_distinct_keys(b),
{
    a.to_multiset_ensures();
    b.to_multiset_ensures();
    assert forall|i: int, j: int| 0 <= i < j < b.len() implies b[i].sort_key()
        != b[j].sort_key() by {
        if b[i].sort_key() == b[j].sort_key() {
            assert(b.contains(b[i]));
            assert(b.contains(b[j]));
            assert(b.to_multiset().count(b[i]) > 0);
            assert(b.to_multiset().count(b[j]) > 0);
            assert(a.contains(b[i]));
            assert(a.contains(b[j]));
            let p = choose|p: int| 0 <= p < a.len() && a[p] == b[i];
            let q = choose|q: int| 0 <= q < a.len() && a[q] == b[j];
            assert(p == q) by {
                if p < q {
                    assert(a[p].sort_key() != a[q].sort_key());
                } else if q < p {
                    assert(a[q].sort_key() != a[p].sort_key());
                }
            }
            lemma_twice_held(b, i, j);
            assert(a.to_multiset().count(b[i]) >= 2);
            lemma_once_held(a, b[i]);
        }
    }
}

/// Where no two values have the same key, none is held twice.
proof fn lemma_once_held<T: Ranked>(s: Seq<T>, v: T)
    requires
        has_distinct_keys(s),
    ensures
        s.to_multiset().count(v) <= 1,
    decreases s.len(),
{
    broadcast use vstd::multiset::group_multiset_axioms;

    if s.len() > 0 {
        let front = s.drop_last();
        assert(front.push(s.last()) == s);
        to_multiset_build(front, s.last());
        front.to_multiset_ensures();
        assert(has_distinct_keys(front)) by {
            assert forall|i: int, j: int| 0 <= i < j < front.len() implies front[i].sort_key()
                != front[j].sort_key() by {
                assert(front[i] == s[i] && front[j] == s[j]);
            }
        }
        lemma_once_held(front, v);
        if s.last() == v {
            if front.contains(v) {
                let p = choose|p: int| 0 <= p < front.len() && front[p] == v;
                assert(s[p] == v);
                assert(s[p].sort_key() != s[s.len() - 1].sort_key());
            }
        }
    } else {
        s.to_multiset_ensures();
    }
}

/// There is one order only for values that are held as often by `x` as by
/// `y`, each value before the values with greater keys.
proof fn lemma_one_strict_order<T: Ranked>(x: Seq<T>, y: Seq<T>)
    requires
        x.to_multiset() == y.to_multiset(),
        is_strictly_sorted(x),
        is_strictly_sorted(y),
    ensures
        x == y,
    decreases x.len(),
{
    broadcast use vstd::multiset::group_multiset_axioms;

    x.to_multiset_ensures();
    y.to_multiset_ensures();
    assert(x.len() == y.len());
    if x.len() > 0 {
        let n = x.len() as int;
        assert(x.contains(x[n - 1]));
        assert(y.contains(y[n - 1]));
        assert(x.to_multiset().count(x[n - 1]) > 0);
        assert(y.to_multiset().count(y[n - 1]) > 0);
        assert(y.contains(x[n - 1]));
        assert(x.contains(y[n - 1]));
        let p = choose|p: int| 0 <= p < n && y[p] == x[n - 1];
        let q = choose|q: int| 0 <= q < n && x[q] == y[n - 1];
        assert(q == n - 1) by {
            if q < n - 1 {
                assert(x[q].sort_key() < x[n - 1].sort_key());
                if p < n - 1 {
                    assert(y[p].sort_key() < y[n - 1].sort_key());
                }
            }
        }
        assert(x[n - 1] == y[n - 1]);
        let xs = x.drop_last();
        let ys = y.drop_last();
        to_multiset_remove(x, n - 1);
        to_multiset_remove(y, n - 1);
        assert(x.remove(n - 1) =~= xs);
        assert(y.remove(n - 1) =~= ys);
        assert(xs.to_multiset() == ys.to_multiset());
        assert(is_strictly_sorted(xs)) by {
            assert forall|i: int, j: int| 0 <= i < j < xs.len() implies xs[i].sort_key()
                < xs[j].sort_key() by {
                assert(xs[i] == x[i] && xs[j] == x[j]);
            }
        }
        assert(is_strictly_sorted(ys)) by {
            assert forall|i: int, j: int| 0 <= i < j < ys.len() implies ys[i].sort_key()
                < ys[j].sort_key() by {
                assert(ys[i] == y[i] && ys[j] == y[j]);
            }
        }
        lemma_one_strict_order(xs, ys);
        assert(x =~= xs.push(x[n - 1]));
        assert(y =~= ys.push(y[n - 1]));
    } else {
        assert(x =~= y);
    }
}

/// What ordering gives does not depend on the order in which the values
/// come, as long as no two of them have the same key: values gathered in any
/// order, by any number of workers, come out in the one order of their keys.
pub proof fn lemma_sorted_whatever_the_order<T: Ranked>(a: Seq<T>, b: Seq<T>)
    requires
        a.to_multiset() == b.to_multiset(),
        has_distinct_keys(a),
    ensures
        sorted(a) == sorted(b),
{
    let x = sorted(a);
    let y = sorted(b);
    lemma_stable_sorted(a, a.len() as int);
    lemma_stable_sorted(b, b.len() as int);
    assert(a.take(a.len() as int) =~= a);
    assert(b.take(b.len() as int) =~= b);
    lemma_distinct_keys_carry_over(a, x);
    lemma_distinct_keys_carry_over(a, y);
    assert(is_strictly_sorted(x)) by {
        assert forall|i: int, j: int| 0 <= i < j < x.len() implies x[i].sort_key()
            < x[j].sort_key() by {
            assert(x[i].sort_key() <= x[j].sort_key());
        }
    }
    assert(is_strictly_sorted(y)) by {
        assert forall|i: int, j: int| 0 <= i < j < y.len() implies y[i].sort_key()
            < y[j].sort_key() by {
            assert(y[i].sort_key() <= y[j].sort_key());
        }
    }
    lemma_one_strict_order(x, y);
}

/// Values that have one order, each before the values with greater keys,
/// come out in that order however they are gathered.
pub proof fn lemma_sorted_restores_order<T: Ranked>(ordered: Seq<T>, gathered: Seq<T>)
    requires
        is_strictly_sorted(ordered),
        gathered.to_multiset() == ordered.to_multiset(),
    ensures
        sorted(gathered) == ordered,
{
    lemma_sorted_whatever_the_order(ordered, gathered);
    lemma_sorted_stays(ordered, ordered.len() as int);
    assert(ordered.take(ordered.len() as int) =~= ordered);
}

/// Where `x` goes in an ordered sequence: behind the last value whose key is
/// not greater.
proof fn lemma_inserted_at<T: Ranked>(s: Seq<T>, x: T, j: int)
    requires
        0 <= j <= s.len(),
        forall|m: int| j <= m < s.len() ==> s[m].sort_key() > x.sort_key(),
        j > 0 ==> s[j - 1].sort_key() <= x.sort_key(),
    ensures
        inserted(s, x) == s.insert(j, x),
    decreases s.len() - j,
{
    if j == s.len() {
        assert(s.insert(j, x) =~= s.push(x));
    } else {
        let front = s.drop_last();
        lemma_inserted_at(front, x, j);
        assert(front.insert(j, x).push(s.last()) =~= s.insert(j, x));
    }
}

/// Puts `v` in ascending order of its keys. Values with the same key keep
/// their order, and values that are in order already are not moved.
pub fn sort_by_key<T: Ranked>(v: &mut Vec<T>)
    ensures
        final(v)@ == sorted(old(v)@),
{
    let n: usize = v.len();
    let mut i: usize = 0;
    assert(v@ =~= stable_sorted(old(v)@, 0) + old(v)@.skip(0));
    while i < n
        invariant
            n == v@.len(),
            n == old(v)@.len(),
            i <= n,
            v@ == stable_sorted(old(v)@, i as int) + old(v)@.skip(i as int),
        decreases n - i,
    {
        let ghost done = stable_sorted(old(v)@, i as int);
        proof {
            lemma_stable_sorted(old(v)@, i as int);
        }
        assert(v@[i as int] == old(v)@[i as int]);
        assert forall|m: int| 0 <= m < i implies v@[m] == done[m] by {}
        let k: u64 = v[i].key();
        let mut j: usize = i;
        while j > 0 && v[j - 1].key() > k
            invariant
                n == v@.len(),
                j <= i < n,
                k == v@[i as int].sort_key(),
                forall|m: int| j <= m < i ==> v@[m].sort_key() > k,
            decreases j,
        {
            j -= 1;
        }
        let ghost before = v@;
        if j < i {
            let x = v.remove(i);
            v.insert(j, x);
        }
        proof {
            let x = old(v)@[i as int];
            assert forall|m: int| j <= m < done.len() implies done[m].sort_key()
                > x.sort_key() by {
                assert(before[m] == done[m]);
            }
            if j > 0 {
                assert(before[j - 1] == done[j - 1]);
            }
            lemma_inserted_at(done, x, j as int);
            assert(v@ =~= done.insert(j as int, x) + old(v)@.skip(i + 1));
        }
        i += 1;
    }
    assert(old(v)@.skip(n as int) =~= Seq::<T>::empty());
    assert(v@ =~= sorted(old(v)@));
}

} // verus!
