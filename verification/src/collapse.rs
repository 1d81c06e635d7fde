//! One pass over the edges of a mesh that collapses the short ones.
//!
//! The mesh itself is not held here: the pass says which edge to look at
//! next, and is told what became of it.

use crate::lattice::SNAP;
use fnv::FnvHashSet;
use vstd::prelude::*;

verus! {

/// `fnv::FnvHasher`, the hasher of the set of removed vertices.
#[verifier::external_type_specification]
#[verifier::external_body]
pub struct ExFnvHasher(fnv::FnvHasher);

/// `std::hash::BuildHasherDefault`, which makes such hashers for a set.
#[verifier::external_type_specification]
#[verifier::external_body]
#[verifier::reject_recursive_types(H)]
pub struct ExBuildHasherDefault<H>(std::hash::BuildHasherDefault<H>);

/// The vertices that a set holds.
pub uninterp spec fn set_members(set: FnvHashSet<u32>) -> Set<u32>;

/// `FnvHashSet::default`: the empty set.
#[verifier::external_body]
fn members_new() -> (set: FnvHashSet<u32>)
    ensures
        set_members(set) == Set::<u32>::empty(),
{
    FnvHashSet::default()
}

/// `HashSet::insert`: the set holds the vertex besides what it held.
#[verifier::external_body]
fn members_insert(set: &mut FnvHashSet<u32>, v: u32)
    ensures
        set_members(*final(set)) == set_members(*old(set)).insert(v),
{
    set.insert(v);
}

/// `HashSet::contains`: whether the set holds the vertex.
#[verifier::external_body]
fn members_contains(set: &FnvHashSet<u32>, v: u32) -> (r: bool)
    ensures
        r == set_members(*set).contains(v),
{
    set.contains(&v)
}

/// Whether an edge of the squared length `sqr_length` is short: below a
/// thousandth of a world unit.
pub fn is_small_edge(sqr_length: i128) -> (r: bool)
    ensures
        r == (sqr_length < SNAP * SNAP),
{
    sqr_length < (SNAP as i128) * (SNAP as i128)
}

/// A pass over the edges that a mesh had when the pass began, each given
/// by its two vertices.
pub struct CollapsePass {
    edges: Vec<(u32, u32)>,
    next: usize,
    deleted: FnvHashSet<u32>,
}

impl CollapsePass {
    #[verifier::type_invariant]
    spec fn valid(self) -> bool {
        self.next <= self.edges.len()
    }

    /// The edges of the pass.
    pub closed spec fn edges(self) -> Seq<(u32, u32)> {
        self.edges@
    }

    /// How many edges the pass has gone by.
    pub closed spec fn position(self) -> int {
        self.next as int
    }

    /// The vertices that collapses of this pass have removed.
    pub closed spec fn deleted(self) -> Set<u32> {
        set_members(self.deleted)
    }

    /// Both vertices of edge `k` are still there.
    pub open spec fn alive(self, k: int) -> bool {
        !self.deleted().contains(self.edges()[k].0) && !self.deleted().contains(self.edges()[k].1)
    }

    /// A pass over the given edges, none gone by and no vertex removed.
    pub fn new(edges: Vec<(u32, u32)>) -> (pass: Self)
        ensures
            pass.edges() == edges@,
            pass.position() == 0,
            pass.deleted() == Set::<u32>::empty(),
    {
        CollapsePass { edges, next: 0, deleted: members_new() }
    }

    /// The next edge whose two vertices are both still there, or nothing
    /// when the pass is over. The pass goes by that edge and all before it.
    pub fn next_candidate(&mut self) -> (edge: Option<(u32, u32)>)
        ensures
            final(self).edges() == old(self).edges(),
            final(self).deleted() == old(self).deleted(),
            old(self).position() <= final(self).position() <= old(self).edges().len(),
            edge is Some ==> final(self).position() > old(self).position() && edge->0 == old(self).edges()[final(self).position() - 1]
                && old(self).alive(final(self).position() - 1),
            edge is Some ==> forall|k: int|
                old(self).position() <= k < final(self).position() - 1 ==> !old(self).alive(k),
            edge is None ==> final(self).position() == old(self).edges().len(),
            edge is None ==> forall|k: int|
                old(self).position() <= k < old(self).edges().len() ==> !old(self).alive(k),
    {
        proof {
            use_type_invariant(&*self);
        }
        let mut at: usize = self.next;
        while at < self.edges.len()
            invariant
                self == old(self),
                self.next <= at <= self.edges.len(),
                forall|k: int| self.next <= k < at ==> !self.alive(k),
            decreases self.edges.len() - at,
        {
            let e = self.edges[at];
            at += 1;
            if !members_contains(&self.deleted, e.0) && !members_contains(&self.deleted, e.1) {
                self.next = at;
                return Some(e);
            }
        }
        self.next = at;
        None
    }

    /// Takes note that the edge between `v0` and `v1` was collapsed and
    /// that `surviving` is the vertex left of the two: the other is
    /// removed.
    pub fn collapsed(&mut self, v0: u32, v1: u32, surviving: u32)
        ensures
            final(self).edges() == old(self).edges(),
            final(self).position() == old(self).position(),
            final(self).deleted() == old(self).deleted().insert(
                if surviving == v0 {
                    v1
                } else {
                    v0
                },
            ),
    {
        proof {
            use_type_invariant(&*self);
        }
        let gone = if surviving == v0 {
            v1
        } else {
            v0
        };
        let mut deleted = members_new();
        std::mem::swap(&mut deleted, &mut self.deleted);
        members_insert(&mut deleted, gone);
        self.deleted = deleted;
    }
}

} // verus!
