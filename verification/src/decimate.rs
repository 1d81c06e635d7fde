//! Removing boundary vertices that a slab does not need: which vertices
//! go, and in which order the edges at such a vertex are flipped away.
//!
//! The mesh itself is not held here. `Dissolve` says which edge to flip
//! next, and is told how the flip went.

use crate::lattice::point3_ok;
use crate::lattice::Point3;
use crate::material_mesh::MaterialID;
use vstd::prelude::*;

verus! {

/// All faces at a vertex are of one material.
pub open spec fn uniform(materials: Seq<MaterialID>) -> bool {
    forall|i: int| 0 < i < materials.len() ==> #[trigger] materials[i] == materials[i - 1]
}

/// Whether all faces at a vertex are of one material.
pub fn is_uniform(materials: &Vec<MaterialID>) -> (r: bool)
    ensures
        r == uniform(materials@),
{
    let mut i: usize = 1;
    while i < materials.len()
        invariant
            1 <= i,
            forall|k: int| 0 < k < i && k < materials.len() ==> #[trigger] materials[k] == materials[k - 1],
        decreases materials.len() - i,
    {
        if !materials[i].same(materials[i - 1]) {
            return false;
        }
        i += 1;
    }
    true
}

/// Whether a vertex is dissolved: it lies on the boundary, its faces are
/// of one material and all look the way the vertex looks, and its two
/// boundary edges run straight through it.
pub fn is_redundant(on_boundary: bool, materials: &Vec<MaterialID>, flat: bool, straight: bool) -> (r:
    bool)
    ensures
        r == (on_boundary && uniform(materials@) && flat && straight),
{
    on_boundary && flat && straight && is_uniform(materials)
}

pub open spec fn diff(a: Point3, b: Point3) -> (int, int, int) {
    (a.0 - b.0, a.1 - b.1, a.2 - b.2)
}

pub open spec fn cross(a: (int, int, int), b: (int, int, int)) -> (int, int, int) {
    (a.1 * b.2 - a.2 * b.1, a.2 * b.0 - a.0 * b.2, a.0 * b.1 - a.1 * b.0)
}

pub open spec fn dot(a: (int, int, int), b: (int, int, int)) -> int {
    a.0 * b.0 + a.1 * b.1 + a.2 * b.2
}

/// Flipping the edge leaves no concave pair of faces: with `edge` the
/// direction of the edge, `before` the direction of the edge before its
/// twin and `after` the direction of the edge after it, the turn from
/// `before` to `after` goes the same way round as the turn from `before`
/// to the edge reversed.
pub open spec fn flip_is_safe(edge: (int, int, int), before: (int, int, int), after: (int, int, int)) -> bool {
    dot(cross(before, after), cross(before, (-edge.0, -edge.1, -edge.2))) > 0
}

proof fn lemma_bound(a: int, b: int, x: int, y: int)
    requires
        -x <= a <= x,
        -y <= b <= y,
    ensures
        -(x * y) <= a * b <= x * y,
{
    assert(-(x * y) <= a * b <= x * y) by (nonlinear_arith)
        requires
            -x <= a <= x,
            -y <= b <= y,
    ;
}

fn cross_of(a: (i128, i128, i128), b: (i128, i128, i128)) -> (r: (i128, i128, i128))
    requires
        -1_000_000_000 <= a.0 <= 1_000_000_000,
        -1_000_000_000 <= a.1 <= 1_000_000_000,
        -1_000_000_000 <= a.2 <= 1_000_000_000,
        -1_000_000_000 <= b.0 <= 1_000_000_000,
        -1_000_000_000 <= b.1 <= 1_000_000_000,
        -1_000_000_000 <= b.2 <= 1_000_000_000,
    ensures
        (r.0 as int, r.1 as int, r.2 as int) == cross(
            (a.0 as int, a.1 as int, a.2 as int),
            (b.0 as int, b.1 as int, b.2 as int),
        ),
        -2_000_000_000_000_000_000 <= r.0 <= 2_000_000_000_000_000_000,
        -2_000_000_000_000_000_000 <= r.1 <= 2_000_000_000_000_000_000,
        -2_000_000_000_000_000_000 <= r.2 <= 2_000_000_000_000_000_000,
{
    proof {
        lemma_bound(a.1 as int, b.2 as int, 1_000_000_000, 1_000_000_000);
        lemma_bound(a.2 as int, b.1 as int, 1_000_000_000, 1_000_000_000);
        lemma_bound(a.2 as int, b.0 as int, 1_000_000_000, 1_000_000_000);
        lemma_bound(a.0 as int, b.2 as int, 1_000_000_000, 1_000_000_000);
        lemma_bound(a.0 as int, b.1 as int, 1_000_000_000, 1_000_000_000);
        lemma_bound(a.1 as int, b.0 as int, 1_000_000_000, 1_000_000_000);
    }
    (a.1 * b.2 - a.2 * b.1, a.2 * b.0 - a.0 * b.2, a.0 * b.1 - a.1 * b.0)
}

/// Whether flipping an edge leaves no concave pair of faces. The edge runs
/// from `from` to `to`, the edge after it from `to` to `after_to`, and the
/// edge before its twin from `before_from` to `to`.
pub fn is_flip_safe(from: Point3, to: Point3, before_from: Point3, after_to: Point3) -> (r: bool)
    requires
        point3_ok(from),
        point3_ok(to),
        point3_ok(before_from),
        point3_ok(after_to),
    ensures
        r == flip_is_safe(diff(to, from), diff(to, before_from), diff(after_to, to)),
{
    let edge: (i128, i128, i128) = (
        (to.0 - from.0) as i128,
        (to.1 - from.1) as i128,
        (to.2 - from.2) as i128,
    );
    let before: (i128, i128, i128) = (
        (to.0 - before_from.0) as i128,
        (to.1 - before_from.1) as i128,
        (to.2 - before_from.2) as i128,
    );
    let after: (i128, i128, i128) = (
        (after_to.0 - to.0) as i128,
        (after_to.1 - to.1) as i128,
        (after_to.2 - to.2) as i128,
    );
    let back: (i128, i128, i128) = (-edge.0, -edge.1, -edge.2);
    let u = cross_of(before, after);
    let v = cross_of(before, back);
    proof {
        let w: int = 2_000_000_000_000_000_000;
        lemma_bound(u.0 as int, v.0 as int, w, w);
        lemma_bound(u.1 as int, v.1 as int, w, w);
        lemma_bound(u.2 as int, v.2 as int, w, w);
        assert(w * w == 4_000_000_000_000_000_000_000_000_000_000_000_000) by (nonlinear_arith)
            requires
                w == 2_000_000_000_000_000_000,
        ;
    }
    u.0 * v.0 + u.1 * v.1 + u.2 * v.2 > 0
}

/// What is done next to dissolve a vertex.
#[derive(Clone, Copy, Debug, PartialEq, Eq)]
pub enum DissolveStep {
    /// Flip this edge away from the vertex.
    Flip(u32),
    /// No inner edge is left at the vertex: remove it.
    Remove,
    /// An inner edge is left but none can be flipped: leave the vertex.
    GiveUp,
}

/// An edge next to a flipped edge, and whether it can be flipped safely.
#[derive(Clone, Copy, Debug, PartialEq, Eq)]
pub struct Neighbour {
    pub halfedge: u32,
    pub safe: bool,
}

/// The edges at a vertex that is being dissolved.
pub struct Dissolve {
    inner_count: usize,
    flippable: Vec<u32>,
}

pub open spec fn is_safe() -> spec_fn(Neighbour) -> bool {
    |n: Neighbour| n.safe
}

pub open spec fn halfedges_of(edges: Seq<Neighbour>) -> Seq<u32> {
    Seq::new(edges.len(), |i: int| edges[i].halfedge)
}

/// The list with the neighbour added, unless it is in the list or cannot
/// be flipped safely.
pub open spec fn with_neighbour(list: Seq<u32>, n: Neighbour) -> Seq<u32> {
    if !list.contains(n.halfedge) && n.safe {
        list.push(n.halfedge)
    } else {
        list
    }
}

impl Dissolve {
    /// How many inner edges are left at the vertex.
    pub closed spec fn inner_count(self) -> nat {
        self.inner_count as nat
    }

    /// The edges that can be flipped safely, the next to be flipped last.
    pub closed spec fn flippable(self) -> Seq<u32> {
        self.flippable@
    }

    /// The inner edges at a vertex, each with whether it can be flipped
    /// safely.
    pub fn new(inner: &Vec<Neighbour>) -> (state: Self)
        ensures
            state.inner_count() == inner.len(),
            state.flippable() == halfedges_of(inner@.filter(is_safe())),
    {
        let mut mask: Vec<bool> = Vec::new();
        let mut i: usize = 0;
        while i < inner.len()
            invariant
                0 <= i <= inner.len(),
                mask.len() == i,
                forall|k: int| 0 <= k < i ==> mask[k] == is_safe()(#[trigger] inner[k]),
            decreases inner.len() - i,
        {
            mask.push(inner[i].safe);
            i += 1;
        }
        let safe = crate::seqs::keep_where(inner, &mask, Ghost(is_safe()));
        let mut flippable: Vec<u32> = Vec::new();
        let mut j: usize = 0;
        while j < safe.len()
            invariant
                0 <= j <= safe.len(),
                flippable@ == halfedges_of(safe@).take(j as int),
            decreases safe.len() - j,
        {
            flippable.push(safe[j].halfedge);
            proof {
                assert(halfedges_of(safe@).take(j + 1) =~= halfedges_of(safe@).take(j as int).push(
                    safe[j as int].halfedge,
                ));
            }
            j += 1;
        }
        proof {
            assert(halfedges_of(safe@).take(safe.len() as int) =~= halfedges_of(safe@));
        }
        Dissolve { inner_count: inner.len(), flippable }
    }

    /// How many inner edges are left at the vertex.
    pub fn inner_left(&self) -> (n: usize)
        ensures
            n == self.inner_count(),
    {
        self.inner_count
    }

    /// What is done next: the vertex is removed when no inner edge is
    /// left; else the last edge that can be flipped safely is flipped, and
    /// leaves the list; with no such edge the vertex is left alone.
    pub fn next_step(&mut self) -> (step: DissolveStep)
        ensures
            final(self).inner_count() == old(self).inner_count(),
            old(self).inner_count() == 0 ==> step == DissolveStep::Remove && final(self).flippable() == old(self).flippable(),
            old(self).inner_count() > 0 && old(self).flippable().len() == 0 ==> step
                == DissolveStep::GiveUp && final(self).flippable() == old(self).flippable(),
            old(self).inner_count() > 0 && old(self).flippable().len() > 0 ==> step
                == DissolveStep::Flip(old(self).flippable().last()) && final(self).flippable()
                == old(self).flippable().drop_last(),
    {
        if self.inner_count == 0 {
            DissolveStep::Remove
        } else {
            match self.flippable.pop() {
                Some(halfedge) => DissolveStep::Flip(halfedge),
                None => DissolveStep::GiveUp,
            }
        }
    }

    /// Takes note that the edge was flipped: one inner edge less is left,
    /// and the edge before the flipped edge in its face and the twin of
    /// the edge after it join the list where they can be flipped safely
    /// and are not in it.
    pub fn flipped(&mut self, previous: Neighbour, next: Neighbour)
        requires
            old(self).inner_count() > 0,
        ensures
            final(self).inner_count() == old(self).inner_count() - 1,
            final(self).flippable() == with_neighbour(
                with_neighbour(old(self).flippable(), previous),
                next,
            ),
    {
        self.add(previous);
        self.add(next);
        self.inner_count = self.inner_count - 1;
    }

    fn add(&mut self, n: Neighbour)
        ensures
            final(self).inner_count == old(self).inner_count,
            final(self).flippable@ == with_neighbour(old(self).flippable@, n),
    {
        let mut i: usize = 0;
        let mut found = false;
        while i < self.flippable.len() && !found
            invariant
                0 <= i <= self.flippable.len(),
                self == old(self),
                !found ==> forall|k: int| 0 <= k < i ==> self.flippable[k] != n.halfedge,
                found ==> self.flippable@.contains(n.halfedge),
            decreases self.flippable.len() - i + if found { 0int } else { 1int },
        {
            if self.flippable[i] == n.halfedge {
                found = true;
            } else {
                i += 1;
            }
        }
        if !found && n.safe {
            self.flippable.push(n.halfedge);
        }
    }
}

} // verus!
