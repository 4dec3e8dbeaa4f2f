//! Stable display orders: ranking rows by a strict order and listing them by rank.
use vstd::prelude::*;

use crate::aggregate::all_indices;

verus! {

/// A type whose values are ranked by a strict order.
pub trait Ranked: Sized {
    /// `self` is listed before `other`.
    spec fn ranks_before(self, other: Self) -> bool;

    /// No value is listed before itself.
    proof fn lemma_ranks_irreflexive(a: Self)
        ensures
            !a.ranks_before(a),
    ;

    /// The order is transitive.
    proof fn lemma_ranks_transitive(a: Self, b: Self, c: Self)
        ensures
            a.ranks_before(b) && b.ranks_before(c) ==> a.ranks_before(c),
    ;

    /// Values that neither is listed before the other rank alike, and ranking alike is
    /// transitive: if `a` is not before `b` and `b` not before `c`, `a` is not before `c`.
    proof fn lemma_ranks_negatively_transitive(a: Self, b: Self, c: Self)
        ensures
            !a.ranks_before(b) && !b.ranks_before(c) ==> !a.ranks_before(c),
    ;

    /// Whether `self` is listed before `other`.
    fn before(&self, other: &Self) -> (r: bool)
        ensures
            r == self.ranks_before(*other),
    ;
}

/// `order` lists indices of `v` so that no value is listed before an earlier one.
pub open spec fn ranked<T: Ranked>(v: Seq<T>, order: Seq<usize>) -> bool {
    forall|a: int, b: int|
        0 <= a < b < order.len() ==> !(#[trigger] v[order[b] as int]).ranks_before(
            #[trigger] v[order[a] as int],
        )
}

/// Values that rank alike are listed in their order in `v`.
pub open spec fn stable<T: Ranked>(v: Seq<T>, order: Seq<usize>) -> bool {
    forall|a: int, b: int|
        0 <= a < b < order.len() && !(#[trigger] v[order[a] as int]).ranks_before(#[trigger] v[order[b] as int])
            ==> order[a] < order[b]
}

/// The indices of `v` in rank order; values that rank alike keep their order in `v`.
pub fn rank_order<T: Ranked>(v: &Vec<T>) -> (r: Vec<usize>)
    ensures
        r@.to_multiset() == all_indices(v@.len() as int).to_multiset(),
        forall|q: int| 0 <= q < r@.len() ==> (#[trigger] r@[q] as int) < v@.len(),
        ranked(v@, r@),
        stable(v@, r@),
{
    broadcast use vstd::seq_lib::group_to_multiset_ensures;

    let n = v.len();
    let mut out: Vec<usize> = Vec::new();
    let mut i: usize = 0;
    while i < n
        invariant
            n == v@.len(),
            i <= n,
            out@.to_multiset() == all_indices(i as int).to_multiset(),
            forall|q: int| 0 <= q < out@.len() ==> (#[trigger] out@[q] as int) < i,
            ranked(v@, out@),
            stable(v@, out@),
        decreases n - i,
    {
        let m = out.len();
        let mut p: usize = 0;
        while p < m && !v[i].before(&v[out[p]])
            invariant
                m == out@.len(),
                p <= m,
                i < n,
                n == v@.len(),
                forall|q: int| 0 <= q < out@.len() ==> (#[trigger] out@[q] as int) < i,
                forall|q: int| 0 <= q < p ==> !v@[i as int].ranks_before(#[trigger] v@[out@[q] as int]),
                ranked(v@, out@),
            decreases m - p,
        {
            p = p + 1;
        }
        let ghost old_out = out@;
        proof {
            assert forall|q: int| p <= q < m implies !(#[trigger] v@[old_out[q] as int]).ranks_before(v@[i as int]) by {
                if v@[old_out[q] as int].ranks_before(v@[i as int]) {
                    assert(p < m);
                    assert(v@[i as int].ranks_before(v@[old_out[p as int] as int]));
                    T::lemma_ranks_transitive(v@[old_out[q] as int], v@[i as int], v@[old_out[p as int] as int]);
                    if q == p {
                        T::lemma_ranks_irreflexive(v@[old_out[p as int] as int]);
                    } else {
                        assert(!v@[old_out[q] as int].ranks_before(v@[old_out[p as int] as int]));
                    }
                }
            }
        }
        proof {
            assert forall|q: int| p <= q < m implies v@[i as int].ranks_before(#[trigger] v@[old_out[q] as int]) by {
                assert(v@[i as int].ranks_before(v@[old_out[p as int] as int]));
                if q > p {
                    assert(!v@[old_out[q] as int].ranks_before(v@[old_out[p as int] as int]));
                    T::lemma_ranks_negatively_transitive(v@[i as int], v@[old_out[q] as int], v@[old_out[p as int] as int]);
                }
            }
        }
        out.insert(p, i);
        proof {
            assert(out@ == old_out.insert(p as int, i));
            vstd::seq_lib::to_multiset_insert(old_out, p as int, i);
            assert(all_indices(i + 1) =~= all_indices(i as int).push(i));
            vstd::seq_lib::to_multiset_build(all_indices(i as int), i);
            assert(out@.to_multiset() == all_indices(i + 1).to_multiset());
            assert forall|a: int, b: int| 0 <= a < b < out@.len() implies !(#[trigger] v@[out@[b] as int]).ranks_before(
                #[trigger] v@[out@[a] as int],
            ) by {
                if b < p {
                    assert(out@[a] == old_out[a] && out@[b] == old_out[b]);
                } else if b == p {
                    assert(out@[a] == old_out[a]);
                } else if a < p {
                    assert(out@[a] == old_out[a] && out@[b] == old_out[b - 1]);
                } else if a == p {
                    assert(out@[b] == old_out[b - 1]);
                } else {
                    assert(out@[a] == old_out[a - 1] && out@[b] == old_out[b - 1]);
                }
            }
            assert forall|a: int, b: int| 0 <= a < b < out@.len() && !(#[trigger] v@[out@[a] as int]).ranks_before(
                #[trigger] v@[out@[b] as int],
            ) implies out@[a] < out@[b] by {
                if b < p {
                    assert(out@[a] == old_out[a] && out@[b] == old_out[b]);
                } else if b == p {
                    assert(out@[a] == old_out[a]);
                } else if a < p {
                    assert(out@[a] == old_out[a] && out@[b] == old_out[b - 1]);
                } else if a == p {
                    assert(out@[b] == old_out[b - 1]);
                    assert(v@[i as int].ranks_before(v@[old_out[b - 1] as int]));
                } else {
                    assert(out@[a] == old_out[a - 1] && out@[b] == old_out[b - 1]);
                }
            }
            assert forall|q: int| 0 <= q < out@.len() implies (#[trigger] out@[q] as int) < i + 1 by {
                if q < p {
                    assert(out@[q] == old_out[q]);
                } else if q > p {
                    assert(out@[q] == old_out[q - 1]);
                }
            }
        }
        i = i + 1;
    }
    out
}

} // verus!
