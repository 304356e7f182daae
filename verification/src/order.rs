//! Stable sorting and removal of neighbouring duplicates.

use vstd::prelude::*;

verus! {

/// A strict weak order on `T`.
pub trait Ranking<T> {
    /// `a` comes strictly before `b`.
    spec fn less(a: T, b: T) -> bool;

    proof fn irreflexive(a: T)
        ensures
            !Self::less(a, a),
    ;

    proof fn transitive(a: T, b: T, c: T)
        requires
            Self::less(a, b),
            Self::less(b, c),
        ensures
            Self::less(a, c),
    ;

    /// Being not before is transitive, too: what the order does not tell
    /// apart forms classes.
    proof fn weak(a: T, b: T, c: T)
        requires
            !Self::less(a, b),
            !Self::less(b, c),
        ensures
            !Self::less(a, c),
    ;
}

/// A strict weak order that can be decided.
pub trait Order<T>: Ranking<T> {
    fn is_less(a: &T, b: &T) -> (r: bool)
        ensures
            r == Self::less(*a, *b),
    ;
}

/// The order of `C` as a function.
pub open spec fn order_of<T, C: Ranking<T>>() -> spec_fn(T, T) -> bool {
    |a: T, b: T| C::less(a, b)
}

/// Where `x` goes in `s`: behind everything that it does not precede.
pub open spec fn insert_position<T>(s: Seq<T>, x: T, less: spec_fn(T, T) -> bool) -> int
    decreases s.len(),
{
    if s.len() == 0 || !less(x, s.last()) {
        s.len() as int
    } else {
        insert_position(s.drop_last(), x, less)
    }
}

/// The stable sort of `s`: elements that the order does not tell apart keep
/// their order.
pub open spec fn sort_by<T>(s: Seq<T>, less: spec_fn(T, T) -> bool) -> Seq<T>
    decreases s.len(),
{
    if s.len() == 0 {
        s
    } else {
        let t = sort_by(s.drop_last(), less);
        t.insert(insert_position(t, s.last(), less), s.last())
    }
}

/// No element comes before one that stands ahead of it.
pub open spec fn is_sorted<T>(s: Seq<T>, less: spec_fn(T, T) -> bool) -> bool {
    forall|i: int, j: int| 0 <= i < j < s.len() ==> !less(#[trigger] s[j], #[trigger] s[i])
}

pub proof fn lemma_insert_position_bounds<T>(s: Seq<T>, x: T, less: spec_fn(T, T) -> bool)
    ensures
        0 <= insert_position(s, x, less) <= s.len(),
    decreases s.len(),
{
    if s.len() > 0 && less(x, s.last()) {
        lemma_insert_position_bounds(s.drop_last(), x, less);
    }
}

proof fn lemma_insert_position_is<T>(s: Seq<T>, x: T, less: spec_fn(T, T) -> bool, p: int)
    requires
        0 <= p <= s.len(),
        forall|k: int| 0 <= k < p ==> !less(x, #[trigger] s[k]),
        forall|k: int| p <= k < s.len() ==> less(x, #[trigger] s[k]),
    ensures
        insert_position(s, x, less) == p,
    decreases s.len(),
{
    if p < s.len() {
        assert(less(x, s.last()));
        lemma_insert_position_is(s.drop_last(), x, less, p);
    } else if s.len() > 0 {
        assert(!less(x, s.last()));
    }
}

pub proof fn lemma_sort_len<T>(s: Seq<T>, less: spec_fn(T, T) -> bool)
    ensures
        sort_by(s, less).len() == s.len(),
    decreases s.len(),
{
    if s.len() > 0 {
        lemma_sort_len(s.drop_last(), less);
        lemma_insert_position_bounds(sort_by(s.drop_last(), less), s.last(), less);
    }
}

/// In a sorted sequence, what `x` precedes is an upper part.
proof fn lemma_position_splits<T, C: Ranking<T>>(s: Seq<T>, x: T)
    requires
        is_sorted(s, order_of::<T, C>()),
    ensures
        ({
            let p = insert_position(s, x, order_of::<T, C>());
            &&& 0 <= p <= s.len()
            &&& forall|k: int| 0 <= k < p ==> !C::less(x, #[trigger] s[k])
            &&& forall|k: int| p <= k < s.len() ==> C::less(x, #[trigger] s[k])
        }),
    decreases s.len(),
{
    let less = order_of::<T, C>();
    if s.len() == 0 {
    } else if less(x, s.last()) {
        let t = s.drop_last();
        assert forall|i: int, j: int| 0 <= i < j < t.len() implies !less(#[trigger] t[j], #[trigger] t[i]) by {
            assert(!less(s[j], s[i]));
        }
        lemma_position_splits::<T, C>(t, x);
        let p = insert_position(s, x, less);
        assert forall|k: int| 0 <= k < p implies !C::less(x, #[trigger] s[k]) by {
            assert(s[k] == t[k]);
        }
        assert forall|k: int| p <= k < s.len() implies C::less(x, #[trigger] s[k]) by {
            if k < t.len() {
                assert(s[k] == t[k]);
            }
        }
    } else {
        assert forall|k: int| 0 <= k < s.len() implies !C::less(x, #[trigger] s[k]) by {
            let last = s.len() - 1;
            if k < last {
                assert(!less(s[last], s[k]));
                C::weak(x, s[last], s[k]);
            }
        }
    }
}

/// Sorting yields a sorted sequence.
pub proof fn law_sort_sorts<T, C: Ranking<T>>(s: Seq<T>)
    ensures
        is_sorted(sort_by(s, order_of::<T, C>()), order_of::<T, C>()),
    decreases s.len(),
{
    let less = order_of::<T, C>();
    if s.len() > 0 {
        let t = sort_by(s.drop_last(), less);
        let x = s.last();
        law_sort_sorts::<T, C>(s.drop_last());
        lemma_position_splits::<T, C>(t, x);
        let p = insert_position(t, x, less);
        let u = t.insert(p, x);
        assert forall|i: int, j: int| 0 <= i < j < u.len() implies !less(#[trigger] u[j], #[trigger] u[i]) by {
            let ti = if i < p { i } else { i - 1 };
            let tj = if j < p { j } else { j - 1 };
            if i == p {
                assert(C::less(x, t[tj]));
                if C::less(t[tj], x) {
                    C::transitive(x, t[tj], x);
                    C::irreflexive(x);
                }
            } else if j == p {
                assert(!C::less(x, t[ti]));
            } else {
                assert(!less(t[tj], t[ti]));
            }
        }
    }
}

/// Sorting keeps every element, as often as it occurs.
pub proof fn law_sort_permutes<T>(s: Seq<T>, less: spec_fn(T, T) -> bool)
    ensures
        sort_by(s, less).to_multiset() == s.to_multiset(),
    decreases s.len(),
{
    broadcast use vstd::seq_lib::group_to_multiset_ensures;

    if s.len() > 0 {
        let t = sort_by(s.drop_last(), less);
        let x = s.last();
        law_sort_permutes(s.drop_last(), less);
        lemma_insert_position_bounds(t, x, less);
        let p = insert_position(t, x, less);
        assert(s =~= s.drop_last().push(x));
        assert(t.insert(p, x) =~= t.take(p) + seq![x] + t.skip(p));
        assert(t =~= t.take(p) + t.skip(p));
        vstd::seq_lib::lemma_multiset_commutative(t.take(p), t.skip(p));
        vstd::seq_lib::lemma_multiset_commutative(t.take(p) + seq![x], t.skip(p));
        assert(t.take(p) + seq![x] =~= t.take(p).push(x));
        assert(t.insert(p, x).to_multiset() =~= t.to_multiset().insert(x));
    }
}

/// Sorting and then mapping is mapping and then sorting, when the map keeps
/// the order.
pub proof fn lemma_sort_map<A, B>(
    s: Seq<A>,
    f: spec_fn(A) -> B,
    less_a: spec_fn(A, A) -> bool,
    less_b: spec_fn(B, B) -> bool,
)
    requires
        forall|x: A, y: A| #[trigger] less_a(x, y) == less_b(f(x), f(y)),
    ensures
        sort_by(s, less_a).map_values(f) == sort_by(s.map_values(f), less_b),
    decreases s.len(),
{
    if s.len() == 0 {
        assert(s.map_values(f) =~= Seq::empty());
    } else {
        let t = sort_by(s.drop_last(), less_a);
        let x = s.last();
        lemma_sort_map(s.drop_last(), f, less_a, less_b);
        assert(s.map_values(f).drop_last() =~= s.drop_last().map_values(f));
        lemma_position_map(t, x, f, less_a, less_b);
        lemma_insert_position_bounds(t, x, less_a);
        let p = insert_position(t, x, less_a);
        assert(t.insert(p, x).map_values(f) =~= t.map_values(f).insert(p, f(x)));
    }
}

proof fn lemma_position_map<A, B>(
    t: Seq<A>,
    x: A,
    f: spec_fn(A) -> B,
    less_a: spec_fn(A, A) -> bool,
    less_b: spec_fn(B, B) -> bool,
)
    requires
        forall|x: A, y: A| #[trigger] less_a(x, y) == less_b(f(x), f(y)),
    ensures
        insert_position(t, x, less_a) == insert_position(t.map_values(f), f(x), less_b),
    decreases t.len(),
{
    if t.len() > 0 {
        assert(t.map_values(f).last() == f(t.last()));
        assert(less_a(x, t.last()) == less_b(f(x), f(t.last())));
        if less_a(x, t.last()) {
            assert(t.map_values(f).drop_last() =~= t.drop_last().map_values(f));
            lemma_position_map(t.drop_last(), x, f, less_a, less_b);
        }
    }
}

/// Sorts stably by the order of `C`.
pub fn sort<T, C: Order<T>>(v: Vec<T>) -> (r: Vec<T>)
    ensures
        r@ == sort_by(v@, order_of::<T, C>()),
{
    let mut out: Vec<T> = Vec::new();
    let ghost less = order_of::<T, C>();
    for x in it: v
        invariant
            it.seq() == v@,
            less == order_of::<T, C>(),
            out@ == sort_by(v@.take(it.index() as int), less),
    {
        let ghost n = it.index() as int;
        proof {
            law_sort_sorts::<T, C>(v@.take(n));
        }
        let mut lo: usize = 0;
        let mut hi: usize = out.len();
        while lo < hi
            invariant
                lo <= hi <= out@.len(),
                is_sorted(out@, order_of::<T, C>()),
                forall|k: int| 0 <= k < lo ==> !C::less(x, #[trigger] out@[k]),
                forall|k: int| hi <= k < out@.len() ==> C::less(x, #[trigger] out@[k]),
            decreases hi - lo,
        {
            let mid: usize = lo + (hi - lo) / 2;
            let before = C::is_less(&x, &out[mid]);
            if before {
                assert forall|k: int| mid <= k < out@.len() implies C::less(x, #[trigger] out@[k]) by {
                    if k > mid && !C::less(x, out@[k]) {
                        assert(!(order_of::<T, C>())(out@[k], out@[mid as int]));
                        C::weak(x, out@[k], out@[mid as int]);
                    }
                }
                hi = mid;
            } else {
                assert forall|k: int| 0 <= k < mid + 1 implies !C::less(x, #[trigger] out@[k]) by {
                    if k < mid {
                        assert(!(order_of::<T, C>())(out@[mid as int], out@[k]));
                        C::weak(x, out@[mid as int], out@[k]);
                    }
                }
                lo = mid + 1;
            }
        }
        proof {
            lemma_insert_position_is(out@, x, less, lo as int);
            assert(v@.take(n + 1).drop_last() =~= v@.take(n));
            assert(v@.take(n + 1).last() == x);
        }
        out.insert(lo, x);
    }
    assert(v@.take(v@.len() as int) =~= v@);
    out
}

/// `s` without the elements that are the `same` as the one kept before them.
pub open spec fn dedup_by<T>(s: Seq<T>, same: spec_fn(T, T) -> bool) -> Seq<T>
    decreases s.len(),
{
    if s.len() == 0 {
        s
    } else {
        let t = dedup_by(s.drop_last(), same);
        if t.len() > 0 && same(s.last(), t.last()) {
            t
        } else {
            t.push(s.last())
        }
    }
}

/// Equality as a relation.
pub open spec fn equal<T>() -> spec_fn(T, T) -> bool {
    |a: T, b: T| a == b
}

/// Removing repeated neighbours keeps every element.
pub proof fn law_dedup_keeps_members<T>(s: Seq<T>)
    ensures
        forall|x: T| #[trigger] dedup_by(s, equal::<T>()).contains(x) <==> s.contains(x),
        s.len() > 0 ==> dedup_by(s, equal::<T>()).len() > 0 && dedup_by(s, equal::<T>()).last() == s.last(),
    decreases s.len(),
{
    if s.len() > 0 {
        let front = s.drop_last();
        let t = dedup_by(front, equal::<T>());
        let u = dedup_by(s, equal::<T>());
        law_dedup_keeps_members(front);
        assert forall|x: T| #[trigger] u.contains(x) <==> s.contains(x) by {
            if s.contains(x) {
                let i = choose|i: int| 0 <= i < s.len() && s[i] == x;
                if i < front.len() {
                    assert(front[i] == x);
                    assert(t.contains(x));
                    let k = choose|k: int| 0 <= k < t.len() && t[k] == x;
                    assert(u[k] == x);
                } else {
                    assert(u[u.len() - 1] == x);
                }
            }
            if u.contains(x) {
                let k = choose|k: int| 0 <= k < u.len() && u[k] == x;
                if k < t.len() {
                    assert(t[k] == x);
                    assert(t.contains(x));
                    let i = choose|i: int| 0 <= i < front.len() && front[i] == x;
                    assert(s[i] == x);
                } else {
                    assert(s[s.len() - 1] == x);
                }
            }
        }
    }
}

/// A sorted sequence without repeated neighbours is strictly sorted, when the
/// order tells its different elements apart.
pub proof fn law_dedup_is_strict<T, C: Ranking<T>>(s: Seq<T>)
    requires
        is_sorted(s, order_of::<T, C>()),
        forall|i: int, j: int|
            0 <= i < s.len() && 0 <= j < s.len() && !C::less(s[i], s[j]) && !C::less(
                #[trigger] s[j],
                #[trigger] s[i],
            ) ==> s[i] == s[j],
    ensures
        forall|i: int, j: int|
            0 <= i < j < dedup_by(s, equal::<T>()).len() ==> C::less(
                #[trigger] dedup_by(s, equal::<T>())[i],
                #[trigger] dedup_by(s, equal::<T>())[j],
            ),
    decreases s.len(),
{
    if s.len() > 0 {
        let front = s.drop_last();
        let less = order_of::<T, C>();
        assert forall|i: int, j: int| 0 <= i < j < front.len() implies !less(
            #[trigger] front[j],
            #[trigger] front[i],
        ) by {
            assert(!less(s[j], s[i]));
        }
        assert forall|i: int, j: int|
            0 <= i < front.len() && 0 <= j < front.len() && !C::less(front[i], front[j]) && !C::less(
                #[trigger] front[j],
                #[trigger] front[i],
            ) implies front[i] == front[j] by {
            assert(s[i] == front[i] && s[j] == front[j]);
        }
        let t = dedup_by(front, equal::<T>());
        let u = dedup_by(s, equal::<T>());
        law_dedup_is_strict::<T, C>(front);
        law_dedup_keeps_members(front);
        if !(t.len() > 0 && s.last() == t.last()) {
            assert forall|i: int| 0 <= i < t.len() implies C::less(#[trigger] t[i], s.last()) by {
                assert(t.contains(t[t.len() - 1]));
                let k = choose|k: int| 0 <= k < front.len() && front[k] == t[t.len() - 1];
                assert(!less(s[s.len() - 1], s[k]));
                assert(!C::less(s.last(), t.last()));
                assert(C::less(t.last(), s.last()));
                if i < t.len() - 1 {
                    assert(C::less(t[i], t[t.len() - 1]));
                    C::transitive(t[i], t.last(), s.last());
                }
            }
        }
    }
}

/// A sort has the members of what was sorted.
pub proof fn lemma_sort_members<T>(s: Seq<T>, less: spec_fn(T, T) -> bool)
    ensures
        forall|x: T| #[trigger] sort_by(s, less).contains(x) <==> s.contains(x),
{
    law_sort_permutes(s, less);
    assert forall|x: T| #[trigger] sort_by(s, less).contains(x) <==> s.contains(x) by {
        lemma_same_members(s, sort_by(s, less), x);
    }
}

/// Sequences with the same elements contain the same elements.
pub proof fn lemma_same_members<T>(a: Seq<T>, b: Seq<T>, x: T)
    requires
        a.to_multiset() == b.to_multiset(),
    ensures
        a.contains(x) <==> b.contains(x),
{
    broadcast use vstd::seq_lib::group_to_multiset_ensures;

    assert(a.contains(x) <==> a.to_multiset().count(x) > 0);
    assert(b.contains(x) <==> b.to_multiset().count(x) > 0);
}

/// Every element comes strictly before the ones behind it.
pub open spec fn is_strict<T>(s: Seq<T>, less: spec_fn(T, T) -> bool) -> bool {
    forall|i: int, j: int| 0 <= i < j < s.len() ==> less(#[trigger] s[i], #[trigger] s[j])
}

/// A strictly sorted sequence is determined by its members.
pub proof fn law_strict_order_is_canonical<T, C: Ranking<T>>(a: Seq<T>, b: Seq<T>)
    requires
        is_strict(a, order_of::<T, C>()),
        is_strict(b, order_of::<T, C>()),
        forall|x: T| #[trigger] a.contains(x) <==> b.contains(x),
    ensures
        a == b,
    decreases a.len(),
{
    let less = order_of::<T, C>();
    if a.len() == 0 {
        if b.len() > 0 {
            assert(b.contains(b[0]));
            assert(a.contains(b[0]));
        }
        assert(a =~= b);
    } else {
        assert(a.contains(a[a.len() - 1]));
        assert(b.contains(a.last()));
        let k = choose|k: int| 0 <= k < b.len() && b[k] == a.last();
        assert(b.contains(b[b.len() - 1]));
        assert(a.contains(b.last()));
        let j = choose|j: int| 0 <= j < a.len() && a[j] == b.last();
        if k < b.len() - 1 {
            assert(less(b[k], b[b.len() - 1]));
            if j < a.len() - 1 {
                assert(less(a[j], a[a.len() - 1]));
                C::transitive(a.last(), b.last(), a.last());
            }
            C::irreflexive(a.last());
        }
        assert(a.last() == b.last());
        let x = a.drop_last();
        let y = b.drop_last();
        assert forall|i: int, j: int| 0 <= i < j < x.len() implies less(#[trigger] x[i], #[trigger] x[j]) by {
            assert(less(a[i], a[j]));
        }
        assert forall|i: int, j: int| 0 <= i < j < y.len() implies less(#[trigger] y[i], #[trigger] y[j]) by {
            assert(less(b[i], b[j]));
        }
        assert forall|e: T| #[trigger] x.contains(e) <==> y.contains(e) by {
            if x.contains(e) {
                let p = choose|p: int| 0 <= p < x.len() && x[p] == e;
                assert(a[p] == e);
                assert(less(a[p], a[a.len() - 1]));
                assert(a.contains(e));
                assert(b.contains(e));
                let q = choose|q: int| 0 <= q < b.len() && b[q] == e;
                if q == b.len() - 1 {
                    C::irreflexive(e);
                }
                assert(y[q] == e);
            }
            if y.contains(e) {
                let p = choose|p: int| 0 <= p < y.len() && y[p] == e;
                assert(b[p] == e);
                assert(less(b[p], b[b.len() - 1]));
                assert(a.contains(e));
                let q = choose|q: int| 0 <= q < a.len() && a[q] == e;
                if q == a.len() - 1 {
                    C::irreflexive(e);
                }
                assert(x[q] == e);
            }
        }
        law_strict_order_is_canonical::<T, C>(x, y);
        assert(a =~= x.push(a.last()));
        assert(b =~= y.push(b.last()));
    }
}

/// Sorting is stable: one more element at the end goes behind everything that
/// it does not precede, and before everything that it does.
pub proof fn law_sort_is_stable<T, C: Ranking<T>>(s: Seq<T>, x: T)
    ensures
        ({
            let t = sort_by(s, order_of::<T, C>());
            exists|p: int|
                0 <= p <= t.len() && sort_by(s.push(x), order_of::<T, C>()) == #[trigger] t.insert(p, x) && (forall|
                    k: int,
                |
                    0 <= k < p ==> !C::less(x, #[trigger] t[k])) && (forall|k: int|
                    p <= k < t.len() ==> C::less(x, #[trigger] t[k]))
        }),
{
    let less = order_of::<T, C>();
    let t = sort_by(s, less);
    law_sort_sorts::<T, C>(s);
    lemma_position_splits::<T, C>(t, x);
    assert(s.push(x).drop_last() =~= s);
    let p = insert_position(t, x, less);
    assert(sort_by(s.push(x), less) == t.insert(p, x));
}

} // verus!
