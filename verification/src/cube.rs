//! The six faces of a unit cube centred at the origin, and what the mesh
//! leaves open on each of them.

use crate::boundary::find_place;
use crate::boundary::links_of;
use crate::boundary::place_of;
use crate::boundary::BoundaryGraph;
use crate::gradient::doubled_area;
use crate::graph::graph_add_edge;
use crate::graph::graph_add_node;
use crate::graph::graph_edge_count;
use crate::graph::graph_edges;
use crate::graph::graph_node_count;
use crate::graph::graph_nodes;
use crate::graph::graph_reverse;
use crate::lattice::in_square;
use crate::lattice::Point2;
use crate::lattice::Point3;
use crate::lattice::HALF;
use crate::lattice::NEG_HALF;
use crate::lattice::UNIT;
use crate::material_mesh::Axis;
use crate::material_mesh::MaterialMesh;
use crate::square::corners;
use crate::square::ring;
use crate::square::as_edges;
use crate::square::build_graph;
use crate::square::closed_square;
use crate::square::intersect_center_unit_square_on_graph;
use petgraph::graph::Graph;
use vstd::prelude::*;

verus! {

/// A face of the unit cube, named by the direction in which it looks.
#[derive(Clone, Copy, Debug, PartialEq, Eq)]
pub enum CubeFace {
    PosX,
    NegX,
    PosY,
    NegY,
    PosZ,
    NegZ,
}

impl CubeFace {
    /// The point in the frame of the face: first along the tangent of the
    /// face, then along its bitangent, last the height above the face. The
    /// tangent of a face is its normal with the axes moved on by one, and
    /// the bitangent is the normal crossed with the tangent.
    pub open spec fn local(self, p: Point3) -> (int, int, int) {
        match self {
            CubeFace::PosX => (p.1 as int, p.2 as int, p.0 - HALF),
            CubeFace::NegX => (-p.1, p.2 as int, -p.0 - HALF),
            CubeFace::PosY => (p.2 as int, p.0 as int, p.1 - HALF),
            CubeFace::NegY => (-p.2, p.0 as int, -p.1 - HALF),
            CubeFace::PosZ => (p.0 as int, p.1 as int, p.2 - HALF),
            CubeFace::NegZ => (-p.0, p.1 as int, -p.2 - HALF),
        }
    }

    /// The point of space at the place `q` of the face.
    pub open spec fn lifted(self, q: Point2) -> (int, int, int) {
        match self {
            CubeFace::PosX => (HALF as int, q.0 as int, q.1 as int),
            CubeFace::NegX => (-HALF, -q.0, q.1 as int),
            CubeFace::PosY => (q.1 as int, HALF as int, q.0 as int),
            CubeFace::NegY => (q.1 as int, -HALF, -q.0),
            CubeFace::PosZ => (q.0 as int, q.1 as int, HALF as int),
            CubeFace::NegZ => (-q.0, q.1 as int, -HALF),
        }
    }

    /// The six faces, in the order in which a cube is closed.
    pub fn all() -> (faces: [CubeFace; 6])
        ensures
            faces@ == seq![
                CubeFace::PosX,
                CubeFace::NegX,
                CubeFace::PosY,
                CubeFace::NegY,
                CubeFace::PosZ,
                CubeFace::NegZ,
            ],
    {
        [
            CubeFace::PosX,
            CubeFace::NegX,
            CubeFace::PosY,
            CubeFace::NegY,
            CubeFace::PosZ,
            CubeFace::NegZ,
        ]
    }

    /// The point in the frame of the face, for a point within the range of
    /// coordinates.
    pub fn to_local(self, p: Point3) -> (r: (i64, i64, i64))
        requires
            crate::lattice::point3_ok(p),
        ensures
            (r.0 as int, r.1 as int, r.2 as int) == self.local(p),
    {
        match self {
            CubeFace::PosX => (p.1, p.2, p.0 - HALF),
            CubeFace::NegX => (-p.1, p.2, -p.0 - HALF),
            CubeFace::PosY => (p.2, p.0, p.1 - HALF),
            CubeFace::NegY => (-p.2, p.0, -p.1 - HALF),
            CubeFace::PosZ => (p.0, p.1, p.2 - HALF),
            CubeFace::NegZ => (-p.0, p.1, -p.2 - HALF),
        }
    }

    /// The point of space at the place `q` of the face, for a place in
    /// the square.
    pub fn lift(self, q: Point2) -> (r: Point3)
        requires
            in_square(q),
        ensures
            (r.0 as int, r.1 as int, r.2 as int) == self.lifted(q),
            self.local(r) == (q.0 as int, q.1 as int, 0int),
    {
        match self {
            CubeFace::PosX => (HALF, q.0, q.1),
            CubeFace::NegX => (NEG_HALF, -q.0, q.1),
            CubeFace::PosY => (q.1, HALF, q.0),
            CubeFace::NegY => (q.1, NEG_HALF, -q.0),
            CubeFace::PosZ => (q.0, q.1, HALF),
            CubeFace::NegZ => (-q.0, q.1, NEG_HALF),
        }
    }
}

/// The node lies on the face.
pub open spec fn node_on_face(face: CubeFace, p: Point3) -> bool {
    face.local(p).2 == 0
}

/// The nodes below `n` that lie on the face, in order.
pub open spec fn nodes_on_face(nodes: Seq<Point3>, face: CubeFace, n: nat) -> Seq<int>
    decreases n,
{
    if n == 0 {
        Seq::empty()
    } else {
        let before = nodes_on_face(nodes, face, (n - 1) as nat);
        if node_on_face(face, nodes[n - 1]) {
            before.push(n - 1)
        } else {
            before
        }
    }
}

/// The edges below `n` whose two ends lie on the face, in order.
pub open spec fn edges_on_face(
    nodes: Seq<Point3>,
    edges: Seq<(int, int)>,
    face: CubeFace,
    n: nat,
) -> Seq<int>
    decreases n,
{
    if n == 0 {
        Seq::empty()
    } else {
        let before = edges_on_face(nodes, edges, face, (n - 1) as nat);
        if node_on_face(face, nodes[edges[n - 1].0]) && node_on_face(face, nodes[edges[n - 1].1]) {
            before.push(n - 1)
        } else {
            before
        }
    }
}

/// The point in the frame of the face, as a lattice point.
pub open spec fn local_point(face: CubeFace, p: Point3) -> Point3 {
    (face.local(p).0 as i64, face.local(p).1 as i64, face.local(p).2 as i64)
}

/// The nodes on a face of the cube, in the frame of the face and in their
/// order.
pub open spec fn face_nodes(nodes: Seq<Point3>, face: CubeFace) -> Seq<Point2> {
    let kept = nodes_on_face(nodes, face, nodes.len());
    Seq::new(
        kept.len(),
        |i: int| (local_point(face, nodes[kept[i]]).0, local_point(face, nodes[kept[i]]).1),
    )
}

/// The edges between nodes on a face of the cube, in their order, each as
/// the places of its ends in `face_nodes`.
pub open spec fn face_links(nodes: Seq<Point3>, edges: Seq<(int, int)>, face: CubeFace) -> Seq<
    (int, int),
> {
    let kept = nodes_on_face(nodes, face, nodes.len());
    let lines = edges_on_face(nodes, edges, face, edges.len());
    Seq::new(
        lines.len(),
        |e: int|
            (
                place_of(kept, edges[lines[e]].0),
                place_of(kept, edges[lines[e]].1),
            ),
    )
}

/// Every node below `n` that lies on the face is in `nodes_on_face`.
proof fn lemma_nodes_on_face_hold(nodes: Seq<Point3>, face: CubeFace, n: nat, v: int)
    requires
        0 <= v < n,
        node_on_face(face, nodes[v]),
    ensures
        nodes_on_face(nodes, face, n).contains(v),
    decreases n,
{
    let all = nodes_on_face(nodes, face, n);
    if v == n - 1 {
        assert(all[all.len() - 1] == v);
    } else {
        lemma_nodes_on_face_hold(nodes, face, (n - 1) as nat, v);
        let before = nodes_on_face(nodes, face, (n - 1) as nat);
        let j = choose|j: int| 0 <= j < before.len() && before[j] == v;
        assert(all[j] == v);
    }
}

impl BoundaryGraph {
    /// The part of the boundary on a face of the cube, in the frame of the
    /// face; nothing where it has more nodes or edges than a graph holds.
    pub fn on_face(&self, face: CubeFace) -> (part: Option<Graph<(i64, i64), ()>>)
        requires
            self.well_formed(),
        ensures
            part is Some <==> nodes_on_face(self.nodes@, face, self.nodes.len() as nat).len()
                <= u32::MAX && edges_on_face(
                self.nodes@,
                links_of(self.edges@),
                face,
                self.edges.len() as nat,
            ).len() <= u32::MAX,
            part is Some ==> graph_nodes(part->0) == face_nodes(self.nodes@, face) && graph_edges(
                part->0,
            ) == face_links(self.nodes@, links_of(self.edges@), face),
    {
        let mut kept: Vec<usize> = Vec::new();
        let mut places: Vec<Point2> = Vec::new();
        let mut v: usize = 0;
        while v < self.nodes.len()
            invariant
                0 <= v <= self.nodes.len(),
                self.well_formed(),
                kept.len() == places.len(),
                kept.len() <= v,
                Seq::new(kept.len() as nat, |i: int| kept[i] as int) == nodes_on_face(
                    self.nodes@,
                    face,
                    v as nat,
                ),
                forall|i: int|
                    0 <= i < kept.len() ==> (#[trigger] kept[i]) < v && (
                        places[i].0 as int,
                        places[i].1 as int,
                        0int,
                    ) == face.local(self.nodes[kept[i] as int]),
            decreases self.nodes.len() - v,
        {
            let q = face.to_local(self.nodes[v]);
            let ghost before = Seq::new(kept.len() as nat, |i: int| kept[i] as int);
            if q.2 == 0 {
                kept.push(v);
                places.push((q.0, q.1));
                proof {
                    assert(Seq::new(kept.len() as nat, |i: int| kept[i] as int) =~= before.push(
                        v as int,
                    ));
                }
            }
            v += 1;
        }
        let ghost listed = Seq::new(kept.len() as nat, |i: int| kept[i] as int);
        let mut pairs: Vec<(usize, usize)> = Vec::new();
        let mut lines: Ghost<Seq<int>> = Ghost(Seq::empty());
        let mut e: usize = 0;
        while e < self.edges.len()
            invariant
                0 <= e <= self.edges.len(),
                self.well_formed(),
                listed == Seq::new(kept.len() as nat, |i: int| kept[i] as int),
                listed == nodes_on_face(self.nodes@, face, self.nodes.len() as nat),
                kept.len() == places.len(),
                lines@ == edges_on_face(self.nodes@, links_of(self.edges@), face, e as nat),
                pairs.len() == lines@.len(),
                forall|i: int| 0 <= i < lines@.len() ==> 0 <= #[trigger] lines@[i] < e,
                forall|i: int|
                    0 <= i < pairs.len() ==> {
                        &&& (#[trigger] pairs[i]).0 == place_of(
                            listed,
                            self.edges[lines@[i]].0 as int,
                        )
                        &&& pairs[i].1 == place_of(listed, self.edges[lines@[i]].1 as int)
                        &&& pairs[i].0 < kept.len()
                        &&& pairs[i].1 < kept.len()
                    },
            decreases self.edges.len() - e,
        {
            let ends = self.edges[e];
            proof {
                assert(links_of(self.edges@)[e as int] == (ends.0 as int, ends.1 as int));
            }
            let a = face.to_local(self.nodes[ends.0]);
            let b = face.to_local(self.nodes[ends.1]);
            if a.2 == 0 && b.2 == 0 {
                proof {
                    lemma_nodes_on_face_hold(
                        self.nodes@,
                        face,
                        self.nodes.len() as nat,
                        ends.0 as int,
                    );
                    lemma_nodes_on_face_hold(
                        self.nodes@,
                        face,
                        self.nodes.len() as nat,
                        ends.1 as int,
                    );
                }
                let from = find_place(&kept, ends.0);
                let to = find_place(&kept, ends.1);
                pairs.push((from, to));
                proof {
                    lines@ = lines@.push(e as int);
                }
            }
            e += 1;
        }
        if kept.len() > u32::MAX as usize || pairs.len() > u32::MAX as usize {
            return None;
        }
        let part = build_graph(&places, &pairs);
        proof {
            assert(graph_edges(part) =~= face_links(self.nodes@, links_of(self.edges@), face)) by {
                assert forall|i: int| 0 <= i < lines@.len() implies #[trigger] graph_edges(
                    part,
                )[i] == (
                    place_of(listed, self.edges[lines@[i]].0 as int),
                    place_of(listed, self.edges[lines@[i]].1 as int),
                ) by {
                    assert(as_edges(pairs@)[i] == (pairs[i].0 as int, pairs[i].1 as int));
                    assert(links_of(self.edges@)[lines@[i]] == (
                        self.edges[lines@[i]].0 as int,
                        self.edges[lines@[i]].1 as int,
                    ));
                }
            }
            assert(graph_nodes(part) =~= face_nodes(self.nodes@, face)) by {
                assert forall|i: int| 0 <= i < listed.len() implies #[trigger] places[i] == (
                    local_point(face, self.nodes[listed[i]]).0,
                    local_point(face, self.nodes[listed[i]]).1,
                ) by {
                    assert(listed[i] == kept[i] as int);
                }
            }
        }
        Some(part)
    }
}

/// Three times the volume between face `f` and the plane one unit below
/// the square, doubled: positive where the face looks up.
pub open spec fn face_volume(mesh: MaterialMesh, f: int) -> int {
    let p = (mesh.corner(3 * f), mesh.corner(3 * f + 1), mesh.corner(3 * f + 2));
    (p.0.2 + p.1.2 + p.2.2 + 3 * UNIT) * doubled_area(Axis::Z, p)
}

/// The sum of `face_volume` over the first `n` faces.
pub open spec fn volume_below(mesh: MaterialMesh, n: nat) -> int
    decreases n,
{
    if n == 0 {
        0
    } else {
        volume_below(mesh, (n - 1) as nat) + face_volume(mesh, n - 1)
    }
}

/// The mesh, given in the frame of a face, encloses the square: the volume
/// under its faces is negative.
pub open spec fn surrounds_square(mesh: MaterialMesh) -> bool {
    volume_below(mesh, mesh.tags().len()) < 0
}

impl MaterialMesh {
    /// Whether the mesh, given in the frame of a face, encloses the square.
    pub fn does_surround_square(&self) -> (r: bool)
        ensures
            r == surrounds_square(*self),
    {
        let n = self.num_faces();
        let mut sum: i128 = 0;
        let mut f: usize = 0;
        while f < n
            invariant
                0 <= f <= n,
                n == self.tags().len(),
                n <= crate::lattice::FACES_MAX,
                sum == volume_below(*self, f as nat),
                -f * 30_000_000_000_000_000_000_000_000_000 <= sum <= f
                    * 30_000_000_000_000_000_000_000_000_000,
            decreases n - f,
        {
            let p = self.face_positions(f);
            let height: i128 = p.0.2 as i128 + p.1.2 as i128 + p.2.2 as i128 + 3 * (UNIT as i128);
            let ax: i128 = (p.1.0 - p.0.0) as i128;
            let ay: i128 = (p.1.1 - p.0.1) as i128;
            let bx: i128 = (p.2.0 - p.0.0) as i128;
            let by: i128 = (p.2.1 - p.0.1) as i128;
            proof {
                assert(-4_000_000_000_000_000_000 <= ax * by <= 4_000_000_000_000_000_000)
                    by (nonlinear_arith)
                    requires
                        -2_000_000_000 <= ax <= 2_000_000_000,
                        -2_000_000_000 <= by <= 2_000_000_000,
                ;
                assert(-4_000_000_000_000_000_000 <= ay * bx <= 4_000_000_000_000_000_000)
                    by (nonlinear_arith)
                    requires
                        -2_000_000_000 <= ay <= 2_000_000_000,
                        -2_000_000_000 <= bx <= 2_000_000_000,
                ;
            }
            let area: i128 = ax * by - ay * bx;
            proof {
                assert(-30_000_000_000_000_000_000_000_000_000 <= height * area
                    <= 30_000_000_000_000_000_000_000_000_000) by (nonlinear_arith)
                    requires
                        -3_003_000_000 <= height <= 3_003_000_000,
                        -8_000_000_000_000_000_000 <= area <= 8_000_000_000_000_000_000,
                ;
                assert((f + 1) * 30_000_000_000_000_000_000_000_000_000 == f
                    * 30_000_000_000_000_000_000_000_000_000
                    + 30_000_000_000_000_000_000_000_000_000) by (nonlinear_arith);
                assert(f * 30_000_000_000_000_000_000_000_000_000 <= 1_431_655_765
                    * 30_000_000_000_000_000_000_000_000_000) by (nonlinear_arith)
                    requires
                        0 <= f <= 1_431_655_765,
                ;
            }
            sum = sum + height * area;
            f += 1;
        }
        sum < 0
    }

    /// Draws the outline of the square into the boundary graph of a face
    /// where the mesh, given in the frame of the face, encloses the square:
    /// four new nodes at the corners, and the edges around them.
    pub fn intersect_center_unit_square_with_context(&self, boundary: &mut Graph<(i64, i64), ()>)
        requires
            graph_nodes(*old(boundary)).len() + 4 < u32::MAX,
            graph_edges(*old(boundary)).len() + 4 < u32::MAX,
        ensures
            surrounds_square(*self) ==> graph_nodes(*final(boundary)) == graph_nodes(
                *old(boundary),
            ) + corners() && graph_edges(*final(boundary)) == graph_edges(*old(boundary)) + ring(
                graph_nodes(*old(boundary)).len() as int,
                4,
            ),
            !surrounds_square(*self) ==> graph_nodes(*final(boundary)) == graph_nodes(
                *old(boundary),
            ) && graph_edges(*final(boundary)) == graph_edges(*old(boundary)),
    {
        if self.does_surround_square() {
            let ghost nodes = graph_nodes(*boundary);
            let ghost edges = graph_edges(*boundary);
            let a = graph_add_node(boundary, (NEG_HALF, NEG_HALF));
            let b = graph_add_node(boundary, (NEG_HALF, HALF));
            let c = graph_add_node(boundary, (HALF, HALF));
            let d = graph_add_node(boundary, (HALF, NEG_HALF));
            graph_add_edge(boundary, a, b);
            graph_add_edge(boundary, b, c);
            graph_add_edge(boundary, c, d);
            graph_add_edge(boundary, d, a);
            proof {
                assert(graph_nodes(*boundary) =~= nodes + corners());
                assert(graph_edges(*boundary) =~= edges + ring(nodes.len() as int, 4));
            }
        }
    }
}

/// Every edge the other way.
pub open spec fn turned(edges: Seq<(int, int)>) -> Seq<(int, int)> {
    Seq::new(edges.len(), |k: int| (edges[k].1, edges[k].0))
}

/// All nodes lie in the square.
pub open spec fn nodes_in_square(nodes: Seq<Point2>) -> bool {
    forall|k: int| 0 <= k < nodes.len() ==> in_square(#[trigger] nodes[k])
}

/// The nodes of the outline of the part of a face inside the mesh: the
/// boundary graph closed along the outline of the square, and, where the
/// boundary decides nothing and the mesh encloses the square, the four
/// corners behind it.
pub open spec fn face_outline_nodes(surrounded: bool, nodes: Seq<Point2>, edges: Seq<(int, int)>) -> Seq<
    Point2,
> {
    let closed = closed_square(nodes, edges);
    if !closed.decided && surrounded {
        closed.nodes + corners()
    } else {
        closed.nodes
    }
}

/// The edges of that outline. They run against the edges of the boundary,
/// so that they keep the inside on their left.
pub open spec fn face_outline_edges(surrounded: bool, nodes: Seq<Point2>, edges: Seq<(int, int)>) -> Seq<
    (int, int),
> {
    let closed = closed_square(nodes, edges);
    if !closed.decided && surrounded {
        turned(closed.edges + ring(closed.nodes.len() as int, 4))
    } else {
        turned(closed.edges)
    }
}

/// The outline of the part of a cube face that lies inside the mesh, ready
/// for triangulation: the boundary of the mesh on the face, closed along
/// the outline of the square by the boundary itself or, where it decides
/// nothing, by the mesh around the face, and then turned round. The mesh
/// is given in the frame of the face. There is no outline where the graph
/// has more than a thousand million nodes or edges, or a node outside the
/// square.
pub fn intersect_center_unit_square(mesh: &MaterialMesh, boundary: Graph<(i64, i64), ()>) -> (outline:
    Option<Graph<(i64, i64), ()>>)
    ensures
        outline is Some <==> graph_nodes(boundary).len() <= 1_000_000_000 && graph_edges(
            boundary,
        ).len() <= 1_000_000_000 && nodes_in_square(graph_nodes(boundary)),
        outline is Some ==> graph_nodes(outline->0) == face_outline_nodes(
            surrounds_square(*mesh),
            graph_nodes(boundary),
            graph_edges(boundary),
        ) && graph_edges(outline->0) == face_outline_edges(
            surrounds_square(*mesh),
            graph_nodes(boundary),
            graph_edges(boundary),
        ),
{
    let n = graph_node_count(&boundary);
    if n > 1_000_000_000 || graph_edge_count(&boundary) > 1_000_000_000 {
        return None;
    }
    let mut i: usize = 0;
    while i < n
        invariant
            0 <= i <= n,
            n == graph_nodes(boundary).len(),
            forall|k: int| 0 <= k < i ==> in_square(#[trigger] graph_nodes(boundary)[k]),
        decreases n - i,
    {
        let p = crate::graph::graph_node_weight(&boundary, i);
        if !(NEG_HALF <= p.0 && p.0 <= HALF && NEG_HALF <= p.1 && p.1 <= HALF) {
            assert(!in_square(graph_nodes(boundary)[i as int]));
            return None;
        }
        i += 1;
    }
    let mut outline = boundary;
    let decided = intersect_center_unit_square_on_graph(&mut outline);
    if !decided {
        mesh.intersect_center_unit_square_with_context(&mut outline);
    }
    graph_reverse(&mut outline);
    Some(outline)
}

impl MaterialMesh {
    /// The mesh in the frame of a cube face, or nothing where a vertex
    /// would leave the range of coordinates.
    pub fn in_face_frame(&self, face: CubeFace) -> (moved: Option<MaterialMesh>)
        ensures
            moved is Some <==> forall|v: int|
                0 <= v < self.positions().len() ==> -crate::lattice::COORD_MAX <= face.local(
                    #[trigger] self.positions()[v],
                ).2,
            moved is Some ==> {
                &&& moved->0.indexes() == self.indexes()
                &&& moved->0.tags() == self.tags()
                &&& moved->0.positions().len() == self.positions().len()
                &&& forall|v: int|
                    0 <= v < self.positions().len() ==> (
                        (#[trigger] moved->0.positions()[v]).0 as int,
                        moved->0.positions()[v].1 as int,
                        moved->0.positions()[v].2 as int,
                    ) == face.local(self.positions()[v])
            },
    {
        let old_positions = self.position_buffer();
        let n = old_positions.len();
        let mut positions: Vec<Point3> = Vec::new();
        let mut v: usize = 0;
        while v < n
            invariant
                0 <= v <= n,
                n == old_positions.len(),
                old_positions@ == self.positions(),
                crate::material_mesh::well_indexed(self.positions(), self.indexes(), self.tags()),
                positions.len() == v,
                forall|w: int|
                    0 <= w < v ==> -crate::lattice::COORD_MAX <= face.local(
                        #[trigger] self.positions()[w],
                    ).2,
                forall|w: int|
                    0 <= w < v ==> crate::lattice::point3_ok(#[trigger] positions[w]) && (
                        positions[w].0 as int,
                        positions[w].1 as int,
                        positions[w].2 as int,
                    ) == face.local(self.positions()[w]),
            decreases n - v,
        {
            let q = face.to_local(old_positions[v]);
            if q.2 < -crate::lattice::COORD_MAX {
                assert(face.local(self.positions()[v as int]).2 < -crate::lattice::COORD_MAX);
                return None;
            }
            positions.push(q);
            v += 1;
        }
        let indexes = crate::seqs::copy_of(self.index_buffer());
        let tags = crate::seqs::copy_of(self.tag_buffer());
        Some(MaterialMesh::from_parts(positions, indexes, tags))
    }
}

} // verus!
