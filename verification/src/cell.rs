//! The part of a mesh inside one unit cube, closed along the faces of the
//! cube into a mesh of its own.

use crate::boundary::boundary_links;
use crate::boundary::boundary_nodes;
use crate::boundary::links_of;
use crate::cube::edges_on_face;
use crate::cube::face_links;
use crate::cube::face_nodes;
use crate::cube::face_outline_edges;
use crate::cube::face_outline_nodes;
use crate::cube::intersect_center_unit_square;
use crate::cube::local_point;
use crate::cube::nodes_in_square;
use crate::cube::nodes_on_face;
use crate::cube::volume_below;
use crate::cube::CubeFace;
use crate::gradient::doubled_area;
use crate::graph::graph_edges;
use crate::graph::graph_nodes;
use crate::lattice::in_square;
use crate::lattice::point3_ok;
use crate::lattice::Point2;
use crate::lattice::Point3;
use crate::lattice::COORD_MAX;
use crate::lattice::HALF;
use crate::lattice::UNIT;
use crate::manifold::numbers_vertices;
use crate::manifold::point_ok;
use crate::manifold::stitch;
use crate::manifold::used_before;
use crate::manifold::lemma_labels_len;
use crate::manifold::vertex_labels;
use crate::material_mesh::point3_ok_wide;
use crate::material_mesh::well_indexed;
use crate::material_mesh::Axis;
use crate::material_mesh::MaterialID;
use crate::material_mesh::MaterialMesh;
use crate::triangulate::as_triples;
use crate::triangulate::triangles_of;
use crate::triangulate::triangulate;
use vstd::prelude::*;

verus! {

/// `face_volume` of face `f` of the mesh taken into the frame of a cube
/// face.
pub open spec fn framed_face_volume(mesh: MaterialMesh, face: CubeFace, f: int) -> int {
    let p = (
        local_point(face, mesh.corner(3 * f)),
        local_point(face, mesh.corner(3 * f + 1)),
        local_point(face, mesh.corner(3 * f + 2)),
    );
    (p.0.2 + p.1.2 + p.2.2 + 3 * UNIT) * doubled_area(Axis::Z, p)
}

/// The sum of `framed_face_volume` over the first `n` faces.
pub open spec fn framed_volume(mesh: MaterialMesh, face: CubeFace, n: nat) -> int
    decreases n,
{
    if n == 0 {
        0
    } else {
        framed_volume(mesh, face, (n - 1) as nat) + framed_face_volume(mesh, face, n - 1)
    }
}

/// The mesh encloses the cube face: in the frame of the face, the volume
/// under its faces is negative.
pub open spec fn face_surrounded(mesh: MaterialMesh, face: CubeFace) -> bool {
    framed_volume(mesh, face, mesh.tags().len()) < 0
}

/// The triangles that close the mesh on a face of the cube, in the frame
/// of the face: the triangles of the outline of the face.
pub open spec fn face_fill(mesh: MaterialMesh, face: CubeFace) -> Seq<(Point2, Point2, Point2)> {
    let nodes = face_nodes(boundary_nodes(mesh), face);
    let links = face_links(boundary_nodes(mesh), boundary_links(mesh), face);
    let surrounded = face_surrounded(mesh, face);
    triangles_of(
        face_outline_nodes(surrounded, nodes, links),
        face_outline_edges(surrounded, nodes, links),
    )
}

/// The mesh can be closed on the face: it reaches no further below the
/// face than coordinates go, its boundary on the face fits a graph and
/// lies in the square, and so does the outline.
pub open spec fn face_fillable(mesh: MaterialMesh, face: CubeFace) -> bool {
    let nodes = face_nodes(boundary_nodes(mesh), face);
    let links = face_links(boundary_nodes(mesh), boundary_links(mesh), face);
    let surrounded = face_surrounded(mesh, face);
    &&& forall|v: int|
        0 <= v < mesh.positions().len() ==> -COORD_MAX <= face.local(
            #[trigger] mesh.positions()[v],
        ).2
    &&& nodes.len() <= 1_000_000_000
    &&& links.len() <= 1_000_000_000
    &&& nodes_in_square(nodes)
    &&& nodes_in_square(face_outline_nodes(surrounded, nodes, links))
}

/// The point of space at the place `q` of the face, as a lattice point.
pub open spec fn lifted_point(face: CubeFace, q: Point2) -> Point3 {
    (face.lifted(q).0 as i64, face.lifted(q).1 as i64, face.lifted(q).2 as i64)
}

/// The corners of the triangles that close the mesh on a face of the
/// cube, in space, one triangle after the other.
pub open spec fn fill_corners(mesh: MaterialMesh, face: CubeFace) -> Seq<Point3> {
    let fill = face_fill(mesh, face);
    Seq::new(
        3 * fill.len(),
        |i: int|
            lifted_point(
                face,
                if i % 3 == 0 {
                    fill[i / 3].0
                } else if i % 3 == 1 {
                    fill[i / 3].1
                } else {
                    fill[i / 3].2
                },
            ),
    )
}

/// The volume of the mesh in the frame of a face is the volume of the
/// mesh taken into that frame.
proof fn lemma_framed_volume(local: MaterialMesh, mesh: MaterialMesh, face: CubeFace, n: nat)
    requires
        n <= mesh.tags().len(),
        well_indexed(mesh.positions(), mesh.indexes(), mesh.tags()),
        local.indexes() == mesh.indexes(),
        local.positions().len() == mesh.positions().len(),
        forall|v: int|
            0 <= v < mesh.positions().len() ==> (
                (#[trigger] local.positions()[v]).0 as int,
                local.positions()[v].1 as int,
                local.positions()[v].2 as int,
            ) == face.local(mesh.positions()[v]),
    ensures
        volume_below(local, n) == framed_volume(mesh, face, n),
    decreases n,
{
    if n > 0 {
        lemma_framed_volume(local, mesh, face, (n - 1) as nat);
        let f = n - 1;
        assert forall|k: int| 3 * f <= k < 3 * f + 3 implies local.corner(k) == local_point(
            face,
            mesh.corner(k),
        ) by {
            let v = mesh.indexes()[k] as int;
            assert(0 <= v < mesh.positions().len());
            assert(local.positions()[v].0 as int == face.local(mesh.positions()[v]).0);
        }
        assert(local.corner(3 * f) == local_point(face, mesh.corner(3 * f)));
        assert(local.corner(3 * f + 1) == local_point(face, mesh.corner(3 * f + 1)));
        assert(local.corner(3 * f + 2) == local_point(face, mesh.corner(3 * f + 2)));
    }
}

/// The mesh has an outline on the face: it reaches no further below the
/// face than coordinates go, and its boundary on the face fits a graph and
/// lies in the square.
pub open spec fn has_face_outline(mesh: MaterialMesh, face: CubeFace) -> bool {
    let nodes = face_nodes(boundary_nodes(mesh), face);
    let links = face_links(boundary_nodes(mesh), boundary_links(mesh), face);
    &&& forall|v: int|
        0 <= v < mesh.positions().len() ==> -COORD_MAX <= face.local(
            #[trigger] mesh.positions()[v],
        ).2
    &&& nodes.len() <= 1_000_000_000
    &&& links.len() <= 1_000_000_000
    &&& nodes_in_square(nodes)
}

/// The triangles in space.
fn lift_all(face: CubeFace, triangles: &Vec<[Point2; 3]>) -> (fill: Vec<[Point3; 3]>)
    requires
        forall|f: int, c: int|
            0 <= f < triangles.len() && 0 <= c < 3 ==> in_square(#[trigger] triangles[f][c]),
    ensures
        fill.len() == triangles.len(),
        forall|f: int, c: int|
            0 <= f < fill.len() && 0 <= c < 3 ==> #[trigger] fill[f][c] == lifted_point(
                face,
                triangles[f][c],
            ),
{
    let mut fill: Vec<[Point3; 3]> = Vec::new();
    let mut t: usize = 0;
    while t < triangles.len()
        invariant
            0 <= t <= triangles.len(),
            fill.len() == t,
            forall|f: int, c: int|
                0 <= f < triangles.len() && 0 <= c < 3 ==> in_square(#[trigger] triangles[f][c]),
            forall|f: int, c: int|
                0 <= f < t && 0 <= c < 3 ==> #[trigger] fill[f][c] == lifted_point(
                    face,
                    triangles[f][c],
                ),
        decreases triangles.len() - t,
    {
        let tri = triangles[t];
        proof {
            assert(in_square(triangles[t as int][0]));
            assert(in_square(triangles[t as int][1]));
            assert(in_square(triangles[t as int][2]));
        }
        let lifted: [Point3; 3] = [face.lift(tri[0]), face.lift(tri[1]), face.lift(tri[2])];
        fill.push(lifted);
        t += 1;
    }
    fill
}

impl MaterialMesh {
    /// The outline of the part of a face of the unit cube centred at the
    /// origin that lies inside the mesh, in the frame of the face; nothing
    /// where the mesh has no such outline.
    pub fn face_outline(&self, face: CubeFace) -> (outline: Option<
        petgraph::graph::Graph<(i64, i64), ()>,
    >)
        ensures
            outline is Some <==> has_face_outline(*self, face),
            outline is Some ==> graph_nodes(outline->0) == face_outline_nodes(
                face_surrounded(*self, face),
                face_nodes(boundary_nodes(*self), face),
                face_links(boundary_nodes(*self), boundary_links(*self), face),
            ),
            outline is Some ==> graph_edges(outline->0) == face_outline_edges(
                face_surrounded(*self, face),
                face_nodes(boundary_nodes(*self), face),
                face_links(boundary_nodes(*self), boundary_links(*self), face),
            ),
    {
        let boundary = self.boundary_graph();
        let ghost nodes = face_nodes(boundary_nodes(*self), face);
        let ghost links = face_links(boundary_nodes(*self), boundary_links(*self), face);
        let part = boundary.on_face(face);
        proof {
            let kept = nodes_on_face(boundary.nodes@, face, boundary.nodes.len() as nat);
            let lines = edges_on_face(
                boundary.nodes@,
                links_of(boundary.edges@),
                face,
                boundary.edges.len() as nat,
            );
            assert(nodes.len() == kept.len());
            assert(links.len() == lines.len());
        }
        let sub = match part {
            Some(sub) => sub,
            None => {
                return None;
            },
        };
        let local = match self.in_face_frame(face) {
            Some(local) => local,
            None => {
                return None;
            },
        };
        let buffer = self.index_buffer();
        proof {
            lemma_framed_volume(local, *self, face, self.tags().len());
        }
        intersect_center_unit_square(&local, sub)
    }

    /// The triangles that close the mesh on a face of the unit cube centred
    /// at the origin, in space; nothing where the mesh cannot be closed on
    /// the face. The mesh lies in the cube, with its boundary on the faces
    /// of the cube.
    pub fn fill_cube_face(&self, face: CubeFace) -> (fill: Option<Vec<[Point3; 3]>>)
        ensures
            fill is Some <==> face_fillable(*self, face),
            fill is Some ==> fill->0.len() == face_fill(*self, face).len(),
            fill is Some ==> forall|t: int, c: int|
                0 <= t < fill->0.len() && 0 <= c < 3 ==> #[trigger] fill->0[t][c] == fill_corners(
                    *self,
                    face,
                )[3 * t + c],
    {
        let outline = match self.face_outline(face) {
            Some(outline) => outline,
            None => {
                return None;
            },
        };
        let triangles = match triangulate(&outline) {
            Some(triangles) => triangles,
            None => {
                return None;
            },
        };
        let fill = lift_all(face, &triangles);
        proof {
            let flat = face_fill(*self, face);
            let all = fill_corners(*self, face);
            assert(as_triples(triangles@) == flat);
            assert forall|t: int, c: int| 0 <= t < fill.len() && 0 <= c < 3 implies #[trigger] fill[t][c]
                == all[3 * t + c] by {
                assert(as_triples(triangles@)[t] == (
                    triangles[t][0],
                    triangles[t][1],
                    triangles[t][2],
                ));
                assert((3 * t + c) / 3 == t && (3 * t + c) % 3 == c);
            }
        }
        Some(fill)
    }
}

/// The axis along which a face of the cube looks.
pub open spec fn axis_of(face: CubeFace) -> Axis {
    match face {
        CubeFace::PosX => Axis::X,
        CubeFace::NegX => Axis::X,
        CubeFace::PosY => Axis::Y,
        CubeFace::NegY => Axis::Y,
        CubeFace::PosZ => Axis::Z,
        CubeFace::NegZ => Axis::Z,
    }
}

pub open spec fn magnitude(x: int) -> int {
    if x < 0 {
        -x
    } else {
        x
    }
}

/// The doubled area of the projection of face `f` onto the cube face.
pub open spec fn shadow(mesh: MaterialMesh, face: CubeFace, f: int) -> int {
    magnitude(
        doubled_area(
            axis_of(face),
            (mesh.corner(3 * f), mesh.corner(3 * f + 1), mesh.corner(3 * f + 2)),
        ),
    )
}

/// The face among the first `n` whose projection onto the cube face is
/// largest, of several the first.
pub open spec fn widest_face(mesh: MaterialMesh, face: CubeFace, n: nat) -> int
    decreases n,
{
    if n <= 1 {
        0
    } else {
        let best = widest_face(mesh, face, (n - 1) as nat);
        if shadow(mesh, face, n - 1) > shadow(mesh, face, best) {
            n - 1
        } else {
            best
        }
    }
}

/// The number of the material of the triangles that close the mesh on a
/// cube face: that of the face whose projection onto the cube face is
/// largest, and the first material for a mesh without faces.
pub open spec fn fill_material(mesh: MaterialMesh, face: CubeFace) -> int {
    if mesh.tags().len() == 0 {
        1
    } else {
        mesh.tags()[widest_face(mesh, face, mesh.tags().len())].value()
    }
}

/// The faces of the cube by number, in the order in which a cube is
/// closed.
pub open spec fn face_number(k: int) -> CubeFace {
    if k == 0 {
        CubeFace::PosX
    } else if k == 1 {
        CubeFace::NegX
    } else if k == 2 {
        CubeFace::PosY
    } else if k == 3 {
        CubeFace::NegY
    } else if k == 4 {
        CubeFace::PosZ
    } else {
        CubeFace::NegZ
    }
}

/// The corners of the faces of the mesh, one face after the other.
pub open spec fn own_corners(mesh: MaterialMesh) -> Seq<Point3> {
    Seq::new(mesh.indexes().len(), |i: int| mesh.corner(i))
}

/// The soup of the mesh closed on the first `k` faces of the cube: its own
/// faces, then the triangles that close it on each of those faces.
#[verifier::opaque]
pub open spec fn cube_soup(mesh: MaterialMesh, k: nat) -> Seq<Point3>
    decreases k,
{
    if k == 0 {
        own_corners(mesh)
    } else {
        cube_soup(mesh, (k - 1) as nat) + fill_corners(mesh, face_number(k - 1))
    }
}

/// The numbers of the materials of the triangles of `cube_soup`.
#[verifier::opaque]
pub open spec fn cube_materials(mesh: MaterialMesh, k: nat) -> Seq<int>
    decreases k,
{
    if k == 0 {
        Seq::new(mesh.tags().len(), |f: int| mesh.tags()[f].value())
    } else {
        cube_materials(mesh, (k - 1) as nat) + Seq::new(
            face_fill(mesh, face_number(k - 1)).len(),
            |f: int| fill_material(mesh, face_number(k - 1)),
        )
    }
}

/// The mesh can be closed in the cube: on each face, and into a soup that
/// `stitch` takes.
pub open spec fn closable(mesh: MaterialMesh) -> bool {
    &&& forall|k: int| 0 <= k < 6 ==> face_fillable(mesh, #[trigger] face_number(k))
    &&& cube_soup(mesh, 6).len() <= u32::MAX
    &&& forall|i: int| 0 <= i < cube_soup(mesh, 6).len() ==> point_ok(#[trigger] cube_soup(mesh, 6)[i])
}

/// `closed` is `mesh` closed in the cube: the mesh of `cube_soup`, with
/// the materials of `cube_materials`.
#[verifier::opaque]
pub open spec fn closes(closed: MaterialMesh, mesh: MaterialMesh) -> bool {
    &&& numbers_vertices(closed.indexes(), vertex_labels(cube_soup(mesh, 6)))
    &&& forall|v: int|
        0 <= v < closed.positions().len() ==> #[trigger] used_before(
            closed.indexes(),
            closed.indexes().len() as int,
            v,
        )
    &&& forall|i: int|
        0 <= i < closed.indexes().len() ==> #[trigger] closed.corner(i) == cube_soup(mesh, 6)[i]
    &&& closed.tags().len() == cube_materials(mesh, 6).len()
    &&& forall|f: int|
        0 <= f < closed.tags().len() ==> (#[trigger] closed.tags()[f]).value() == cube_materials(
            mesh,
            6,
        )[f]
}

fn doubled_area_of(axis: Axis, p: (Point3, Point3, Point3)) -> (r: i128)
    requires
        point3_ok(p.0),
        point3_ok(p.1),
        point3_ok(p.2),
    ensures
        r == magnitude(doubled_area(axis, p)),
{
    let ax: i128 = (p.1.0 - p.0.0) as i128;
    let ay: i128 = (p.1.1 - p.0.1) as i128;
    let az: i128 = (p.1.2 - p.0.2) as i128;
    let bx: i128 = (p.2.0 - p.0.0) as i128;
    let by: i128 = (p.2.1 - p.0.1) as i128;
    let bz: i128 = (p.2.2 - p.0.2) as i128;
    let (u1, v1, u2, v2) = match axis {
        Axis::X => (ay, bz, az, by),
        Axis::Y => (az, bx, ax, bz),
        Axis::Z => (ax, by, ay, bx),
    };
    proof {
        assert(-1_000_000_000_000_000_000 <= u1 * v1 <= 1_000_000_000_000_000_000)
            by (nonlinear_arith)
            requires
                -1_000_000_000 <= u1 <= 1_000_000_000,
                -1_000_000_000 <= v1 <= 1_000_000_000,
        ;
        assert(-1_000_000_000_000_000_000 <= u2 * v2 <= 1_000_000_000_000_000_000)
            by (nonlinear_arith)
            requires
                -1_000_000_000 <= u2 <= 1_000_000_000,
                -1_000_000_000 <= v2 <= 1_000_000_000,
        ;
    }
    let area = u1 * v1 - u2 * v2;
    if area < 0 {
        -area
    } else {
        area
    }
}

impl MaterialMesh {
    /// The material of the triangles that close the mesh on a cube face.
    pub fn fill_material_of(&self, face: CubeFace) -> (tag: MaterialID)
        ensures
            tag.value() == fill_material(*self, face),
    {
        let n = self.num_faces();
        if n == 0 {
            return MaterialID::default();
        }
        let axis = match face {
            CubeFace::PosX => Axis::X,
            CubeFace::NegX => Axis::X,
            CubeFace::PosY => Axis::Y,
            CubeFace::NegY => Axis::Y,
            CubeFace::PosZ => Axis::Z,
            CubeFace::NegZ => Axis::Z,
        };
        let mut best: usize = 0;
        let mut best_area = doubled_area_of(axis, self.face_positions(0));
        let mut f: usize = 1;
        while f < n
            invariant
                1 <= f <= n,
                n == self.tags().len(),
                axis == axis_of(face),
                best < f,
                best == widest_face(*self, face, f as nat),
                best_area == shadow(*self, face, best as int),
            decreases n - f,
        {
            let area = doubled_area_of(axis, self.face_positions(f));
            if area > best_area {
                best = f;
                best_area = area;
            }
            f += 1;
        }
        self.face_tag(best)
    }
}

/// The numbers of the materials of the tags.
pub open spec fn values_of(tags: Seq<MaterialID>) -> Seq<int> {
    Seq::new(tags.len(), |f: int| tags[f].value())
}

/// `moved` is `mesh` moved by `by`.
pub open spec fn moved_by(moved: MaterialMesh, mesh: MaterialMesh, by: Point3) -> bool {
    &&& moved.indexes() == mesh.indexes()
    &&& moved.tags() == mesh.tags()
    &&& moved.positions().len() == mesh.positions().len()
    &&& forall|v: int|
        0 <= v < mesh.positions().len() ==> {
            &&& (#[trigger] moved.positions()[v]).0 == mesh.positions()[v].0 + by.0
            &&& moved.positions()[v].1 == mesh.positions()[v].1 + by.1
            &&& moved.positions()[v].2 == mesh.positions()[v].2 + by.2
        }
}

/// `mesh` can be moved by `by` within the range of coordinates.
pub open spec fn movable(mesh: MaterialMesh, by: Point3) -> bool {
    forall|v: int|
        0 <= v < mesh.positions().len() ==> point3_ok_wide(#[trigger] mesh.positions()[v], by)
}

/// The way from the lowest corner of a cube to the centre of the unit cube
/// at the origin.
pub open spec fn to_centre(cube_min: Point3) -> Point3 {
    ((-cube_min.0 - HALF) as i64, (-cube_min.1 - HALF) as i64, (-cube_min.2 - HALF) as i64)
}

/// The way back.
pub open spec fn from_centre(cube_min: Point3) -> Point3 {
    ((cube_min.0 + HALF) as i64, (cube_min.1 + HALF) as i64, (cube_min.2 + HALF) as i64)
}

impl MaterialMesh {
    /// The corners of the faces, one face after the other.
    fn corners(&self) -> (soup: Vec<Point3>)
        ensures
            soup@ == own_corners(*self),
            soup.len() == 3 * self.tags().len(),
    {
        let indexes = self.index_buffer();
        let positions = self.position_buffer();
        let mut soup: Vec<Point3> = Vec::new();
        let mut i: usize = 0;
        while i < indexes.len()
            invariant
                0 <= i <= indexes.len(),
                indexes@ == self.indexes(),
                positions@ == self.positions(),
                well_indexed(self.positions(), self.indexes(), self.tags()),
                soup.len() == i,
                forall|k: int| 0 <= k < i ==> #[trigger] soup[k] == self.corner(k),
            decreases indexes.len() - i,
        {
            soup.push(positions[indexes[i] as usize]);
            i += 1;
        }
        proof {
            assert(soup@ =~= own_corners(*self));
        }
        soup
    }

    /// The mesh closed in the unit cube centred at the origin: its faces,
    /// and on each face of the cube the triangles that close it there, as
    /// one mesh; nothing where the mesh cannot be closed. The mesh lies in
    /// the cube, with its boundary on the faces of the cube, and none of
    /// its faces lies in a face of the cube.
    pub fn close_in_cube(&self) -> (closed: Option<MaterialMesh>)
        ensures
            closed is Some <==> closable(*self),
            closed is Some ==> closes(closed->0, *self),
    {
        let mut soup = self.corners();
        let mut tags = crate::seqs::copy_of(self.tag_buffer());
        let faces = CubeFace::all();
        let mut k: usize = 0;
        proof {
            reveal(cube_soup);
            reveal(cube_materials);
            assert(values_of(tags@) =~= cube_materials(*self, 0));
        }
        while k < 6
            invariant
                0 <= k <= 6,
                faces@ == seq![
                    CubeFace::PosX,
                    CubeFace::NegX,
                    CubeFace::PosY,
                    CubeFace::NegY,
                    CubeFace::PosZ,
                    CubeFace::NegZ,
                ],
                soup@ == cube_soup(*self, k as nat),
                values_of(tags@) == cube_materials(*self, k as nat),
                soup.len() == 3 * tags.len(),
                forall|j: int| 0 <= j < k ==> face_fillable(*self, #[trigger] face_number(j)),
            decreases 6 - k,
        {
            let face = faces[k];
            assert(face == face_number(k as int));
            let fill = match self.fill_cube_face(face) {
                Some(fill) => fill,
                None => {
                    return None;
                },
            };
            let material = self.fill_material_of(face);
            let ghost had = soup@;
            let ghost had_tags = values_of(tags@);
            let ghost added = fill_corners(*self, face);
            let mut t: usize = 0;
            proof {
                assert(had + added.take(0) =~= had);
                assert(had_tags + Seq::new(0, |f: int| fill_material(*self, face)) =~= had_tags);
            }
            while t < fill.len()
                invariant
                    0 <= t <= fill.len(),
                    added == fill_corners(*self, face),
                    added.len() == 3 * fill.len(),
                    forall|f: int, c: int|
                        0 <= f < fill.len() && 0 <= c < 3 ==> #[trigger] fill[f][c] == added[3 * f
                            + c],
                    material.value() == fill_material(*self, face),
                    soup@ == had + added.take(3 * t),
                    values_of(tags@) == had_tags + Seq::new(
                        t as nat,
                        |f: int| fill_material(*self, face),
                    ),
                    had.len() == 3 * had_tags.len(),
                    soup.len() == 3 * tags.len(),
                decreases fill.len() - t,
            {
                let tri = fill[t];
                let ghost before = values_of(tags@);
                soup.push(tri[0]);
                soup.push(tri[1]);
                soup.push(tri[2]);
                tags.push(material);
                proof {
                    assert(fill[t as int][0] == added[3 * t + 0]);
                    assert(fill[t as int][1] == added[3 * t + 1]);
                    assert(fill[t as int][2] == added[3 * t + 2]);
                    assert(had + added.take(3 * (t + 1)) =~= (had + added.take(3 * t)).push(
                        tri[0],
                    ).push(tri[1]).push(tri[2]));
                    assert(values_of(tags@) =~= before.push(material.value()));
                    assert(had_tags + Seq::new((t + 1) as nat, |f: int| fill_material(*self, face))
                        =~= (had_tags + Seq::new(t as nat, |f: int| fill_material(*self, face))).push(
                        fill_material(*self, face),
                    ));
                }
                t += 1;
            }
            proof {
                reveal(cube_soup);
                reveal(cube_materials);
                assert(added.take(3 * fill.len()) =~= added);
            }
            k += 1;
        }
        if soup.len() > u32::MAX as usize {
            return None;
        }
        let mut i: usize = 0;
        while i < soup.len()
            invariant
                0 <= i <= soup.len(),
                soup@ == cube_soup(*self, 6),
                forall|j: int| 0 <= j < i ==> point_ok(#[trigger] soup[j]),
            decreases soup.len() - i,
        {
            let p = soup[i];
            let top = crate::manifold::SOUP_MAX;
            if p.0 < -top || p.0 > top || p.1 < -top || p.1 > top || p.2 < -top || p.2 > top {
                assert(!point_ok(cube_soup(*self, 6)[i as int]));
                return None;
            }
            i += 1;
        }
        let ghost materials = values_of(tags@);
        let closed = stitch(soup, tags);
        proof {
            reveal(closes);
            assert forall|f: int| 0 <= f < closed.tags().len() implies (#[trigger] closed.tags()[f]).value()
                == cube_materials(*self, 6)[f] by {
                assert(materials[f] == closed.tags()[f].value());
            }
            assert forall|j: int| 0 <= j < 6 implies face_fillable(
                *self,
                #[trigger] face_number(j),
            ) by {}
        }
        Some(closed)
    }
}

/// What `intersect_unit_cube` returns for a mesh and a cube: the mesh,
/// moved so that the cube is centred at the origin, closed there, and
/// moved back.
pub open spec fn cut_to_cube(cut: MaterialMesh, mesh: MaterialMesh, cube_min: Point3) -> bool {
    exists|centred: MaterialMesh, closed: MaterialMesh|
        moved_by(centred, mesh, to_centre(cube_min)) && #[trigger] closes(closed, centred)
            && moved_by(cut, closed, from_centre(cube_min))
}

/// Why `intersect_unit_cube` returns nothing: the cube or the mesh moved
/// to it lies out of range, the mesh there cannot be closed, or once
/// closed cannot be moved back.
pub open spec fn cannot_cut(mesh: MaterialMesh, cube_min: Point3) -> bool {
    ||| !point3_ok(cube_min)
    ||| !movable(mesh, to_centre(cube_min))
    ||| exists|centred: MaterialMesh| #[trigger]
        moved_by(centred, mesh, to_centre(cube_min)) && (!closable(centred) || exists|
            closed: MaterialMesh,
        | #[trigger]
            closes(closed, centred) && !movable(closed, from_centre(cube_min)))
}

/// The faces of `mesh` are the first faces of `cut`, with their materials
/// and their corners where they were.
pub open spec fn keeps_faces(cut: MaterialMesh, mesh: MaterialMesh) -> bool {
    &&& cut.tags().len() >= mesh.tags().len()
    &&& forall|f: int| 0 <= f < mesh.tags().len() ==> #[trigger] cut.tags()[f] == mesh.tags()[f]
    &&& forall|i: int| 0 <= i < mesh.indexes().len() ==> #[trigger] cut.corner(i) == mesh.corner(i)
}

/// The soup of a closed mesh starts with the mesh's own corners, and its
/// materials with the mesh's own.
proof fn lemma_cube_soup_starts(mesh: MaterialMesh, k: nat)
    ensures
        cube_soup(mesh, k).len() >= mesh.indexes().len(),
        forall|i: int| 0 <= i < mesh.indexes().len() ==> cube_soup(mesh, k)[i] == mesh.corner(i),
        cube_materials(mesh, k).len() >= mesh.tags().len(),
        forall|f: int|
            0 <= f < mesh.tags().len() ==> cube_materials(mesh, k)[f] == mesh.tags()[f].value(),
    decreases k,
{
    reveal(cube_soup);
    reveal(cube_materials);
    if k > 0 {
        lemma_cube_soup_starts(mesh, (k - 1) as nat);
    }
}

/// The faces of a closed mesh are the triangles of the soup.
proof fn lemma_closed_faces(closed: MaterialMesh, mesh: MaterialMesh)
    requires
        closes(closed, mesh),
    ensures
        closed.indexes().len() == cube_soup(mesh, 6).len(),
        forall|i: int|
            0 <= i < closed.indexes().len() ==> #[trigger] closed.corner(i) == cube_soup(mesh, 6)[i],
        closed.tags().len() == cube_materials(mesh, 6).len(),
        forall|f: int|
            0 <= f < closed.tags().len() ==> (#[trigger] closed.tags()[f]).value()
                == cube_materials(mesh, 6)[f],
{
    reveal(closes);
    lemma_labels_len(cube_soup(mesh, 6));
}

/// Moving a mesh to the cube, closing it there and moving it back keeps
/// its faces.
proof fn lemma_keeps_faces(
    cut: MaterialMesh,
    closed: MaterialMesh,
    centred: MaterialMesh,
    mesh: MaterialMesh,
    cube_min: Point3,
)
    requires
        point3_ok(cube_min),
        well_indexed(mesh.positions(), mesh.indexes(), mesh.tags()),
        well_indexed(closed.positions(), closed.indexes(), closed.tags()),
        moved_by(centred, mesh, to_centre(cube_min)),
        closes(closed, centred),
        moved_by(cut, closed, from_centre(cube_min)),
    ensures
        keeps_faces(cut, mesh),
{
    lemma_cube_soup_starts(centred, 6);
    lemma_closed_faces(closed, centred);
    let there = to_centre(cube_min);
    let back = from_centre(cube_min);
    assert forall|i: int| 0 <= i < mesh.indexes().len() implies #[trigger] cut.corner(i)
        == mesh.corner(i) by {
        assert(closed.corner(i) == cube_soup(centred, 6)[i]);
        assert(cube_soup(centred, 6)[i] == centred.corner(i));
        let v = mesh.indexes()[i] as int;
        let w = closed.indexes()[i] as int;
        assert(centred.positions()[v].0 == mesh.positions()[v].0 + there.0);
        assert(cut.positions()[w].0 == closed.positions()[w].0 + back.0);
    }
    assert forall|f: int| 0 <= f < mesh.tags().len() implies #[trigger] cut.tags()[f]
        == mesh.tags()[f] by {
        assert(closed.tags()[f].value() == cube_materials(centred, 6)[f]);
        assert(cube_materials(centred, 6)[f] == centred.tags()[f].value());
        MaterialID::lemma_same_value(cut.tags()[f], mesh.tags()[f]);
    }
}

impl MaterialMesh {
    /// The part of the mesh in the unit cube whose lowest corner is
    /// `cube_min`, closed along the faces of the cube; nothing where that
    /// cannot be had.
    ///
    /// The mesh is a manifold, perhaps with a boundary; it lies in the cube
    /// with its boundary on the faces of the cube, and none of its faces
    /// lies in a face of the cube. Its faces stay as they are, with their
    /// materials; behind them come the triangles that close it on the six
    /// faces of the cube.
    pub fn intersect_unit_cube(self, cube_min: Point3) -> (cut: Option<MaterialMesh>)
        ensures
            cut is Some ==> cut_to_cube(cut->0, self, cube_min),
            cut is Some ==> keeps_faces(cut->0, self),
            cut is None ==> cannot_cut(self, cube_min),
    {
        if !crate::lattice::is_point3_ok(cube_min) {
            return None;
        }
        let there: Point3 = (-cube_min.0 - HALF, -cube_min.1 - HALF, -cube_min.2 - HALF);
        let back: Point3 = (cube_min.0 + HALF, cube_min.1 + HALF, cube_min.2 + HALF);
        let centred = match self.translated(there) {
            Some(centred) => centred,
            None => {
                return None;
            },
        };
        assert(moved_by(centred, self, to_centre(cube_min)));
        let closed = match centred.close_in_cube() {
            Some(closed) => closed,
            None => {
                return None;
            },
        };
        let own = self.index_buffer();
        let stitched = closed.index_buffer();
        let cut = match closed.translated(back) {
            Some(cut) => cut,
            None => {
                assert(closes(closed, centred) && !movable(closed, from_centre(cube_min)));
                return None;
            },
        };
        proof {
            lemma_keeps_faces(cut, closed, centred, self, cube_min);
        }
        Some(cut)
    }
}

} // verus!
