//! Disjoint sets of corner indices, kept in a `petgraph` union-find.
//!
//! Verus sees the structure as an opaque value. What it holds is named by
//! `set_labels`: for each element the representative of its set. The
//! contracts below are taken on trust from the `petgraph` sources.

use petgraph::unionfind::UnionFind;
use vstd::prelude::*;

verus! {

/// `petgraph::unionfind::UnionFind`, disjoint sets of the numbers below a
/// length.
#[verifier::external_type_specification]
#[verifier::external_body]
#[verifier::reject_recursive_types(K)]
pub struct ExUnionFind<K>(UnionFind<K>);

/// For each element, the representative of the set that it is in.
pub uninterp spec fn set_labels(sets: UnionFind<usize>) -> Seq<int>;

/// `UnionFind::new`: `n` sets of one element, each its own representative.
#[verifier::external_body]
pub(crate) fn sets_new(n: usize) -> (sets: UnionFind<usize>)
    ensures
        set_labels(sets) == Seq::new(n as nat, |i: int| i),
{
    UnionFind::new(n)
}

/// `UnionFind::union`: the sets of `a` and `b` become one set, whose
/// representative is that of one of the two; every other element keeps its
/// representative. The call panics on an element out of bounds, which
/// `requires` leaves out.
#[verifier::external_body]
pub(crate) fn sets_union(sets: &mut UnionFind<usize>, a: usize, b: usize)
    requires
        a < set_labels(*old(sets)).len(),
        b < set_labels(*old(sets)).len(),
    ensures
        set_labels(*final(sets)).len() == set_labels(*old(sets)).len(),
        set_labels(*final(sets))[a as int] == set_labels(*old(sets))[a as int] || set_labels(
            *final(sets),
        )[a as int] == set_labels(*old(sets))[b as int],
        forall|i: int|
            0 <= i < set_labels(*old(sets)).len() ==> #[trigger] set_labels(*final(sets))[i] == if set_labels(
                *old(sets),
            )[i] == set_labels(*old(sets))[a as int] || set_labels(*old(sets))[i] == set_labels(
                *old(sets),
            )[b as int] {
                set_labels(*final(sets))[a as int]
            } else {
                set_labels(*old(sets))[i]
            },
{
    sets.union(a, b);
}

/// `UnionFind::into_labeling`: the representative of each element.
#[verifier::external_body]
pub(crate) fn sets_into_labeling(sets: UnionFind<usize>) -> (labels: Vec<usize>)
    ensures
        labels@.len() == set_labels(sets).len(),
        forall|i: int| 0 <= i < labels@.len() ==> #[trigger] labels@[i] as int == set_labels(sets)[i],
{
    sets.into_labeling()
}

} // verus!
