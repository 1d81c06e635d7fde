//! The boundary of a mesh: the sides of faces that no other face shares,
//! as a directed graph along the winding of the faces.

use crate::lattice::Point3;
use crate::material_mesh::MaterialMesh;
use crate::seqs::first_from;
use crate::seqs::lemma_first_from;
use vstd::prelude::*;

verus! {

pub open spec fn next_in_face(k: int) -> int {
    k / 3 * 3 + (k + 1) % 3
}

/// No side of a face runs against the side that starts at corner `k`.
pub open spec fn open_side(indexes: Seq<u32>, k: int) -> bool {
    forall|j: int|
        0 <= j < indexes.len() ==> !(#[trigger] indexes[j] == indexes[next_in_face(k)]
            && indexes[next_in_face(j)] == indexes[k])
}

/// An open side starts or ends at vertex `v`.
pub open spec fn on_boundary(indexes: Seq<u32>, v: int) -> bool {
    exists|k: int|
        0 <= k < indexes.len() && open_side(indexes, k) && (#[trigger] indexes[k] == v
            || indexes[next_in_face(k)] == v)
}

/// The vertices below `n` on the boundary, in rising order.
pub open spec fn boundary_vertices(indexes: Seq<u32>, n: nat) -> Seq<int>
    decreases n,
{
    if n == 0 {
        Seq::empty()
    } else {
        let before = boundary_vertices(indexes, (n - 1) as nat);
        if on_boundary(indexes, n - 1) {
            before.push(n - 1)
        } else {
            before
        }
    }
}

/// The corners below `n` at which an open side starts, in rising order.
pub open spec fn open_sides(indexes: Seq<u32>, n: nat) -> Seq<int>
    decreases n,
{
    if n == 0 {
        Seq::empty()
    } else {
        let before = open_sides(indexes, (n - 1) as nat);
        if open_side(indexes, n - 1) {
            before.push(n - 1)
        } else {
            before
        }
    }
}

pub open spec fn is_vertex(list: Seq<int>, v: int) -> spec_fn(int) -> bool {
    |i: int| list[i] == v
}

/// The place of vertex `v` in the list.
pub open spec fn place_of(list: Seq<int>, v: int) -> int {
    first_from(is_vertex(list, v), 0, list.len() as int)
}

/// The boundary of a mesh as plain data: the positions of the vertices on
/// the boundary, and the open sides as pairs of indices into them.
#[derive(Debug)]
pub struct BoundaryGraph {
    pub nodes: Vec<Point3>,
    pub edges: Vec<(usize, usize)>,
}

impl BoundaryGraph {
    /// Every edge joins two nodes, and every node lies within the range of
    /// coordinates.
    pub open spec fn well_formed(self) -> bool {
        &&& forall|e: int|
            0 <= e < self.edges.len() ==> (#[trigger] self.edges[e]).0 < self.nodes.len()
                && self.edges[e].1 < self.nodes.len()
        &&& forall|i: int|
            0 <= i < self.nodes.len() ==> crate::lattice::point3_ok(#[trigger] self.nodes[i])
    }
}

/// The positions of the vertices on the boundary of the mesh, in the order
/// of the vertices.
pub open spec fn boundary_nodes(mesh: MaterialMesh) -> Seq<Point3> {
    let vertices = boundary_vertices(mesh.indexes(), mesh.positions().len());
    Seq::new(vertices.len(), |i: int| mesh.positions()[vertices[i]])
}

/// The open sides of the mesh, in the order of the corners, each as the
/// places in `boundary_nodes` of the vertex at which it starts and of the
/// vertex at which it ends.
pub open spec fn boundary_links(mesh: MaterialMesh) -> Seq<(int, int)> {
    let vertices = boundary_vertices(mesh.indexes(), mesh.positions().len());
    let corners = open_sides(mesh.indexes(), mesh.indexes().len());
    Seq::new(
        corners.len(),
        |e: int|
            (
                place_of(vertices, mesh.indexes()[corners[e]] as int),
                place_of(vertices, mesh.indexes()[next_in_face(corners[e])] as int),
            ),
    )
}

/// The edges as pairs of numbers.
pub open spec fn links_of(edges: Seq<(usize, usize)>) -> Seq<(int, int)> {
    Seq::new(edges.len(), |e: int| (edges[e].0 as int, edges[e].1 as int))
}

/// `graph` is the boundary of `mesh`: a node for each vertex on the
/// boundary, and an edge for each open side, directed as its face winds.
pub open spec fn is_boundary_of(graph: BoundaryGraph, mesh: MaterialMesh) -> bool {
    graph.nodes@ == boundary_nodes(mesh) && links_of(graph.edges@) == boundary_links(mesh)
}

fn next_in(k: usize, n: usize) -> (r: usize)
    requires
        k < n,
        n % 3 == 0,
    ensures
        r == next_in_face(k as int),
        r < n,
{
    k - k % 3 + (k % 3 + 1) % 3
}

fn is_open_side(indexes: &Vec<u32>, k: usize) -> (r: bool)
    requires
        k < indexes.len(),
        indexes.len() % 3 == 0,
    ensures
        r == open_side(indexes@, k as int),
{
    let n = indexes.len();
    let from = indexes[k];
    let to = indexes[next_in(k, n)];
    let mut j: usize = 0;
    while j < n
        invariant
            0 <= j <= n,
            n == indexes.len(),
            n % 3 == 0,
            k < n,
            from == indexes[k as int],
            to == indexes[next_in_face(k as int)],
            forall|i: int|
                0 <= i < j ==> !(#[trigger] indexes[i] == to && indexes[next_in_face(i)] == from),
        decreases n - j,
    {
        if indexes[j] == to && indexes[next_in(j, n)] == from {
            return false;
        }
        j += 1;
    }
    true
}

/// The corners at which an open side starts.
fn collect_open_sides(indexes: &Vec<u32>) -> (r: Vec<usize>)
    requires
        indexes.len() % 3 == 0,
    ensures
        r.len() <= indexes.len(),
        Seq::new(r.len() as nat, |i: int| r[i] as int) == open_sides(
            indexes@,
            indexes.len() as nat,
        ),
        forall|i: int|
            0 <= i < r.len() ==> (#[trigger] r[i]) < indexes.len() && open_side(
                indexes@,
                r[i] as int,
            ),
{
    let n = indexes.len();
    let mut r: Vec<usize> = Vec::new();
    let mut k: usize = 0;
    while k < n
        invariant
            0 <= k <= n,
            n == indexes.len(),
            n % 3 == 0,
            r.len() <= k,
            Seq::new(r.len() as nat, |i: int| r[i] as int) == open_sides(indexes@, k as nat),
            forall|i: int|
                0 <= i < r.len() ==> (#[trigger] r[i]) < n && open_side(indexes@, r[i] as int),
        decreases n - k,
    {
        let ghost before = Seq::new(r.len() as nat, |i: int| r[i] as int);
        if is_open_side(indexes, k) {
            r.push(k);
            proof {
                assert(Seq::new(r.len() as nat, |i: int| r[i] as int) =~= before.push(k as int));
            }
        }
        k += 1;
    }
    r
}

/// Whether one of the open sides starts or ends at vertex `v`.
fn touches_open_side(indexes: &Vec<u32>, sides: &Vec<usize>, v: usize) -> (r: bool)
    requires
        indexes.len() % 3 == 0,
        Seq::new(sides.len() as nat, |i: int| sides[i] as int) == open_sides(
            indexes@,
            indexes.len() as nat,
        ),
        forall|i: int|
            0 <= i < sides.len() ==> (#[trigger] sides[i]) < indexes.len() && open_side(
                indexes@,
                sides[i] as int,
            ),
    ensures
        r == on_boundary(indexes@, v as int),
{
    let n = indexes.len();
    let mut i: usize = 0;
    while i < sides.len()
        invariant
            0 <= i <= sides.len(),
            n == indexes.len(),
            n % 3 == 0,
            forall|j: int|
                0 <= j < sides.len() ==> (#[trigger] sides[j]) < n && open_side(
                    indexes@,
                    sides[j] as int,
                ),
            forall|j: int|
                0 <= j < i ==> indexes[(#[trigger] sides[j]) as int] != v && indexes[next_in_face(
                    sides[j] as int,
                )] != v,
        decreases sides.len() - i,
    {
        let k = sides[i];
        if indexes[k] as usize == v || indexes[next_in(k, n)] as usize == v {
            return true;
        }
        i += 1;
    }
    proof {
        let all = Seq::new(sides.len() as nat, |i: int| sides[i] as int);
        if on_boundary(indexes@, v as int) {
            let k = choose|k: int|
                0 <= k < indexes.len() && open_side(indexes@, k) && (#[trigger] indexes[k] == v
                    || indexes[next_in_face(k)] == v);
            lemma_open_sides_hold(indexes@, n as nat, k);
            let j = choose|j: int| 0 <= j < all.len() && all[j] == k;
            assert(sides[j] == k);
        }
    }
    false
}

/// Every corner below `n` at which an open side starts is in `open_sides`.
proof fn lemma_open_sides_hold(indexes: Seq<u32>, n: nat, k: int)
    requires
        0 <= k < n,
        open_side(indexes, k),
    ensures
        open_sides(indexes, n).contains(k),
    decreases n,
{
    let all = open_sides(indexes, n);
    if k == n - 1 {
        assert(all[all.len() - 1] == k);
    } else {
        lemma_open_sides_hold(indexes, (n - 1) as nat, k);
        let before = open_sides(indexes, (n - 1) as nat);
        let j = choose|j: int| 0 <= j < before.len() && before[j] == k;
        assert(all[j] == k);
    }
}

/// Every vertex below `n` on the boundary is in `boundary_vertices`.
proof fn lemma_boundary_vertices_hold(indexes: Seq<u32>, n: nat, v: int)
    requires
        0 <= v < n,
        on_boundary(indexes, v),
    ensures
        boundary_vertices(indexes, n).contains(v),
    decreases n,
{
    let all = boundary_vertices(indexes, n);
    if v == n - 1 {
        assert(all[all.len() - 1] == v);
    } else {
        lemma_boundary_vertices_hold(indexes, (n - 1) as nat, v);
        let before = boundary_vertices(indexes, (n - 1) as nat);
        let j = choose|j: int| 0 <= j < before.len() && before[j] == v;
        assert(all[j] == v);
    }
}

pub(crate) fn find_place(list: &Vec<usize>, v: usize) -> (r: usize)
    requires
        Seq::new(list.len() as nat, |i: int| list[i] as int).contains(v as int),
    ensures
        r < list.len(),
        r == place_of(Seq::new(list.len() as nat, |i: int| list[i] as int), v as int),
{
    let ghost all = Seq::new(list.len() as nat, |i: int| list[i] as int);
    let mut i: usize = 0;
    while i < list.len()
        invariant
            0 <= i <= list.len(),
            all == Seq::new(list.len() as nat, |i: int| list[i] as int),
            all.contains(v as int),
            forall|k: int| 0 <= k < i ==> !#[trigger] is_vertex(all, v as int)(k),
        decreases list.len() - i,
    {
        if list[i] == v {
            proof {
                lemma_first_from(is_vertex(all, v as int), 0, i as int, list.len() as int);
            }
            return i;
        }
        i += 1;
    }
    proof {
        let j = choose|j: int| 0 <= j < all.len() && all[j] == v as int;
        assert(is_vertex(all, v as int)(j));
    }
    0
}

impl MaterialMesh {
    /// The boundary of the mesh: its open sides, each directed as its face
    /// winds, between the vertices that they join.
    pub fn boundary_graph(&self) -> (graph: BoundaryGraph)
        ensures
            is_boundary_of(graph, *self),
            graph.well_formed(),
    {
        let indexes = self.index_buffer();
        let positions = self.position_buffer();
        let n = indexes.len();
        let sides = collect_open_sides(indexes);
        let mut vertices: Vec<usize> = Vec::new();
        let mut nodes: Vec<Point3> = Vec::new();
        let mut v: usize = 0;
        while v < positions.len()
            invariant
                0 <= v <= positions.len(),
                n == indexes.len(),
                n % 3 == 0,
                Seq::new(sides.len() as nat, |i: int| sides[i] as int) == open_sides(
                    indexes@,
                    n as nat,
                ),
                forall|i: int|
                    0 <= i < sides.len() ==> (#[trigger] sides[i]) < n && open_side(
                        indexes@,
                        sides[i] as int,
                    ),
                vertices.len() == nodes.len(),
                Seq::new(vertices.len() as nat, |i: int| vertices[i] as int) == boundary_vertices(
                    indexes@,
                    v as nat,
                ),
                forall|i: int|
                    0 <= i < vertices.len() ==> (#[trigger] vertices[i]) < v && nodes[i]
                        == positions[vertices[i] as int],
                forall|i: int| 0 <= i < nodes.len() ==> crate::lattice::point3_ok(#[trigger] nodes[i]),
                crate::material_mesh::well_indexed(self.positions(), self.indexes(), self.tags()),
                positions@ == self.positions(),
            decreases positions.len() - v,
        {
            let ghost before = Seq::new(vertices.len() as nat, |i: int| vertices[i] as int);
            if touches_open_side(indexes, &sides, v) {
                vertices.push(v);
                nodes.push(positions[v]);
                proof {
                    assert(Seq::new(vertices.len() as nat, |i: int| vertices[i] as int)
                        =~= before.push(v as int));
                }
            }
            v += 1;
        }
        let ghost listed = Seq::new(vertices.len() as nat, |i: int| vertices[i] as int);
        let mut edges: Vec<(usize, usize)> = Vec::new();
        let mut e: usize = 0;
        while e < sides.len()
            invariant
                0 <= e <= sides.len(),
                n == indexes.len(),
                n % 3 == 0,
                well_formed_indexes(indexes@, positions.len() as int),
                forall|i: int|
                    0 <= i < sides.len() ==> (#[trigger] sides[i]) < n && open_side(
                        indexes@,
                        sides[i] as int,
                    ),
                listed == Seq::new(vertices.len() as nat, |i: int| vertices[i] as int),
                listed == boundary_vertices(indexes@, positions.len() as nat),
                vertices.len() == nodes.len(),
                forall|i: int| 0 <= i < nodes.len() ==> crate::lattice::point3_ok(#[trigger] nodes[i]),
                edges.len() == e,
                forall|i: int|
                    0 <= i < e ==> {
                        &&& (#[trigger] edges[i]).0 == place_of(
                            listed,
                            indexes[sides[i] as int] as int,
                        )
                        &&& edges[i].1 == place_of(
                            listed,
                            indexes[next_in_face(sides[i] as int)] as int,
                        )
                        &&& edges[i].0 < nodes.len()
                        &&& edges[i].1 < nodes.len()
                    },
            decreases sides.len() - e,
        {
            let k = sides[e];
            let from = indexes[k] as usize;
            let to = indexes[next_in(k, n)] as usize;
            proof {
                assert(on_boundary(indexes@, from as int));
                assert(on_boundary(indexes@, to as int));
                lemma_boundary_vertices_hold(indexes@, positions.len() as nat, from as int);
                lemma_boundary_vertices_hold(indexes@, positions.len() as nat, to as int);
            }
            let a = find_place(&vertices, from);
            let b = find_place(&vertices, to);
            edges.push((a, b));
            e += 1;
        }
        let graph = BoundaryGraph { nodes, edges };
        proof {
            let corners = open_sides(indexes@, n as nat);
            assert(graph.nodes@ =~= boundary_nodes(*self)) by {
                assert forall|i: int| 0 <= i < listed.len() implies #[trigger] graph.nodes[i]
                    == self.positions()[listed[i]] by {
                    assert(listed[i] == vertices[i] as int);
                }
            }
            assert(links_of(graph.edges@) =~= boundary_links(*self)) by {
                assert forall|i: int| 0 <= i < corners.len() implies #[trigger] links_of(
                    graph.edges@,
                )[i] == boundary_links(*self)[i] by {
                    assert(corners[i] == sides[i] as int);
                }
            }
        }
        graph
    }
}

/// Every index names one of `n` vertices.
pub open spec fn well_formed_indexes(indexes: Seq<u32>, n: int) -> bool {
    forall|k: int| 0 <= k < indexes.len() ==> (#[trigger] indexes[k] as int) < n
}

} // verus!
