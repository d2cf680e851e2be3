//! Stable sorting by a key.
use vstd::prelude::*;
use crate::order::{lemma_parts_lt_irreflexive, lemma_parts_lt_total, lemma_parts_lt_transitive, parts_lt, Parts};

verus! {

/// What a value is sorted by.
pub trait Ranked: Sized {
    spec fn rank(&self) -> Parts;

    fn rank_before(&self, other: &Self) -> (r: bool)
        ensures
            r == parts_lt(self.rank(), other.rank()),
    ;
}

pub open spec fn rank_fn<T: Ranked>() -> spec_fn(T) -> Parts {
    |t: T| t.rank()
}

/// `x` in its place in a sorted sequence, behind its equals.
pub open spec fn placed<T>(s: Seq<T>, x: T, rank: spec_fn(T) -> Parts) -> Seq<T>
    decreases s.len(),
{
    if s.len() > 0 && parts_lt(rank(x), rank(s.last())) {
        placed(s.drop_last(), x, rank).push(s.last())
    } else {
        s.push(x)
    }
}

/// The elements of `s` in ascending order of their ranks; equals keep their order.
pub open spec fn sorted_by<T>(s: Seq<T>, rank: spec_fn(T) -> Parts) -> Seq<T>
    decreases s.len(),
{
    if s.len() == 0 {
        Seq::empty()
    } else {
        placed(sorted_by(s.drop_last(), rank), s.last(), rank)
    }
}

/// No element comes before one of lower rank.
pub open spec fn in_order<T>(s: Seq<T>, rank: spec_fn(T) -> Parts) -> bool {
    forall|i: int, j: int| 0 <= i < j < s.len() ==> !parts_lt(rank(#[trigger] s[j]), rank(#[trigger] s[i]))
}

proof fn lemma_placed<T>(s: Seq<T>, x: T, rank: spec_fn(T) -> Parts)
    requires
        in_order(s, rank),
    ensures
        in_order(placed(s, x, rank), rank),
        placed(s, x, rank).to_multiset() == s.to_multiset().insert(x),
        placed(s, x, rank).len() == s.len() + 1,
        forall|i: int|
            0 <= i < placed(s, x, rank).len() ==> #[trigger] placed(s, x, rank)[i] == x || s.contains(
                placed(s, x, rank)[i],
            ),
    decreases s.len(),
{
    broadcast use vstd::seq_lib::group_to_multiset_ensures;

    let p = placed(s, x, rank);
    if s.len() > 0 && parts_lt(rank(x), rank(s.last())) {
        let t = s.drop_last();
        lemma_placed(t, x, rank);
        let q = placed(t, x, rank);
        assert(p == q.push(s.last()));
        assert(s =~= t.push(s.last()));
        assert(p.to_multiset() =~= s.to_multiset().insert(x));
        assert forall|i: int, j: int| 0 <= i < j < p.len() implies !parts_lt(
            rank(#[trigger] p[j]),
            rank(#[trigger] p[i]),
        ) by {
            if j == p.len() - 1 {
                assert(p[i] == q[i]);
                if q[i] == x {
                    if parts_lt(rank(s.last()), rank(x)) {
                        lemma_parts_lt_transitive(rank(x), rank(s.last()), rank(x));
                        lemma_parts_lt_irreflexive(rank(x));
                    }
                } else {
                    let k = choose|k: int| 0 <= k < t.len() && t[k] == q[i];
                    assert(s[k] == q[i]);
                    assert(!parts_lt(rank(s[s.len() - 1]), rank(s[k])));
                }
            } else {
                assert(p[i] == q[i]);
                assert(p[j] == q[j]);
            }
        }
        assert forall|i: int| 0 <= i < p.len() implies #[trigger] p[i] == x || s.contains(p[i]) by {
            if i < q.len() {
                assert(p[i] == q[i]);
                if q[i] != x {
                    let k = choose|k: int| 0 <= k < t.len() && t[k] == q[i];
                    assert(s[k] == q[i]);
                }
            } else {
                assert(p[i] == s[s.len() - 1]);
            }
        }
    } else {
        assert(p == s.push(x));
        assert forall|i: int, j: int| 0 <= i < j < p.len() implies !parts_lt(
            rank(#[trigger] p[j]),
            rank(#[trigger] p[i]),
        ) by {
            if j == s.len() {
                assert(p[i] == s[i]);
                let last = s.last();
                assert(!parts_lt(rank(x), rank(last)));
                if i < s.len() - 1 {
                    assert(!parts_lt(rank(s[s.len() - 1]), rank(s[i])));
                }
                if parts_lt(rank(x), rank(s[i])) {
                    lemma_parts_lt_total(rank(s[i]), rank(last));
                    if parts_lt(rank(s[i]), rank(last)) {
                        lemma_parts_lt_transitive(rank(x), rank(s[i]), rank(last));
                    }
                }
            } else {
                assert(p[i] == s[i]);
                assert(p[j] == s[j]);
            }
        }
        assert forall|i: int| 0 <= i < p.len() implies #[trigger] p[i] == x || s.contains(p[i]) by {
            if i < s.len() {
                assert(p[i] == s[i]);
            }
        }
    }
}

/// Sorting orders the elements and neither drops nor invents one.
pub proof fn sorting_orders_and_keeps<T>(s: Seq<T>, rank: spec_fn(T) -> Parts)
    ensures
        in_order(sorted_by(s, rank), rank),
        sorted_by(s, rank).to_multiset() == s.to_multiset(),
        sorted_by(s, rank).len() == s.len(),
    decreases s.len(),
{
    broadcast use vstd::seq_lib::group_to_multiset_ensures;

    if s.len() > 0 {
        let t = s.drop_last();
        sorting_orders_and_keeps(t, rank);
        lemma_placed(sorted_by(t, rank), s.last(), rank);
        assert(s =~= t.push(s.last()));
    }
}

/// Sorting commutes with a change of representation that keeps the ranks.
pub proof fn lemma_sorted_map<T, U>(
    s: Seq<T>,
    f: spec_fn(T) -> U,
    rank: spec_fn(T) -> Parts,
    rank2: spec_fn(U) -> Parts,
)
    requires
        forall|t: T| #[trigger] rank(t) == rank2(f(t)),
    ensures
        sorted_by(s, rank).map_values(f) == sorted_by(s.map_values(f), rank2),
    decreases s.len(),
{
    if s.len() > 0 {
        let t = s.drop_last();
        lemma_sorted_map(t, f, rank, rank2);
        lemma_placed_map(sorted_by(t, rank), s.last(), f, rank, rank2);
        assert(s.map_values(f).drop_last() =~= t.map_values(f));
    } else {
        assert(sorted_by(s, rank).map_values(f) =~= sorted_by(s.map_values(f), rank2));
    }
}

proof fn lemma_placed_map<T, U>(
    s: Seq<T>,
    x: T,
    f: spec_fn(T) -> U,
    rank: spec_fn(T) -> Parts,
    rank2: spec_fn(U) -> Parts,
)
    requires
        forall|t: T| #[trigger] rank(t) == rank2(f(t)),
    ensures
        placed(s, x, rank).map_values(f) == placed(s.map_values(f), f(x), rank2),
    decreases s.len(),
{
    let u = s.map_values(f);
    if s.len() > 0 {
        assert(u.last() == f(s.last()));
        assert(rank(s.last()) == rank2(f(s.last())));
    }
    assert(rank(x) == rank2(f(x)));
    if s.len() > 0 && parts_lt(rank(x), rank(s.last())) {
        lemma_placed_map(s.drop_last(), x, f, rank, rank2);
        assert(u.drop_last() =~= s.drop_last().map_values(f));
        assert(placed(s, x, rank).map_values(f) =~= placed(s.drop_last(), x, rank).map_values(f).push(f(s.last())));
    } else {
        assert(placed(s, x, rank).map_values(f) =~= u.push(f(x)));
    }
}

/// Where `x` goes: behind the last element that is not greater.
proof fn lemma_place_at<T>(s: Seq<T>, x: T, rank: spec_fn(T) -> Parts, at: int)
    requires
        0 <= at <= s.len(),
        forall|j: int| at <= j < s.len() ==> parts_lt(rank(x), rank(#[trigger] s[j])),
        at > 0 ==> !parts_lt(rank(x), rank(s[at - 1])),
    ensures
        placed(s, x, rank) == s.insert(at, x),
    decreases s.len(),
{
    if at < s.len() {
        lemma_place_at(s.drop_last(), x, rank, at);
        assert(s.drop_last().insert(at, x).push(s.last()) =~= s.insert(at, x));
    } else {
        assert(s.insert(at, x) =~= s.push(x));
    }
}

/// Sort, keeping the order of equals.
pub fn stable_sort<T: Ranked>(v: Vec<T>) -> (r: Vec<T>)
    ensures
        r@ == sorted_by(v@, rank_fn::<T>()),
{
    let ghost s = v@;
    let ghost rank = rank_fn::<T>();
    let mut rest = v;
    let mut out: Vec<T> = Vec::new();
    let ghost mut n: int = 0;
    assert(s.skip(0) =~= s);
    assert(s.take(0) =~= Seq::<T>::empty());
    while rest.len() > 0
        invariant
            rank == rank_fn::<T>(),
            0 <= n <= s.len(),
            rest@ == s.skip(n),
            out@ == sorted_by(s.take(n), rank),
        decreases rest@.len(),
    {
        let x = rest.remove(0);
        let ghost before = out@;
        proof {
            assert(x == s[n]);
            assert(rest@ =~= s.skip(n + 1));
            assert(s.take(n + 1).drop_last() =~= s.take(n));
            assert(s.take(n + 1).last() == x);
        }
        let mut at: usize = out.len();
        while at > 0 && x.rank_before(&out[at - 1])
            invariant
                rank == rank_fn::<T>(),
                at <= out@.len(),
                out@ == before,
                forall|j: int| at <= j < out@.len() ==> parts_lt(rank(x), rank(#[trigger] out@[j])),
            decreases at,
        {
            at -= 1;
        }
        proof {
            lemma_place_at(before, x, rank, at as int);
        }
        out.insert(at, x);
        proof {
            n = n + 1;
        }
    }
    assert(s.take(n) =~= s);
    out
}

/// The same elements from the last to the first.
pub fn reversed<T>(v: Vec<T>) -> (r: Vec<T>)
    ensures
        r@ == v@.reverse(),
{
    let ghost s = v@;
    let mut rest = v;
    let mut out: Vec<T> = Vec::new();
    assert(s.take(s.len() as int) =~= s);
    while rest.len() > 0
        invariant
            rest@ == s.take(rest@.len() as int),
            rest@.len() + out@.len() == s.len(),
            forall|i: int| 0 <= i < out@.len() ==> #[trigger] out@[i] == s[s.len() - 1 - i],
        decreases rest@.len(),
    {
        match rest.pop() {
            Some(x) => {
                out.push(x);
                assert(rest@ =~= s.take(rest@.len() as int));
            },
            None => {},
        }
    }
    assert(out@ =~= s.reverse());
    out
}

} // verus!
