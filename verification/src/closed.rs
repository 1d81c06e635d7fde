//! Closed meshes turn nothing: over a surface without boundary, the
//! projected areas of the faces that look along an axis and of those that
//! look against it cancel.

use crate::boundary::next_in_face;
use crate::gradient::by_min;
use crate::gradient::doubled_area;
use crate::gradient::face_range;
use crate::gradient::face_ranges;
use crate::gradient::lemma_stretches_keep_area;
use crate::gradient::areas_within;
use crate::gradient::merged;
use crate::gradient::total_area;
use crate::gradient::FACE_AREA_MAX;
use crate::lattice::point3_ok;
use crate::lattice::Point3;
use crate::lattice::FACES_MAX;
use crate::material_mesh::well_indexed;
use crate::material_mesh::Axis;
use crate::material_mesh::MaterialMesh;
use vstd::prelude::*;

verus! {

/// Twice the signed area, seen along the axis, of the triangle from the
/// origin over the segment from `a` to `b`.
pub open spec fn swept(axis: Axis, a: Point3, b: Point3) -> int {
    match axis {
        Axis::X => a.1 * b.2 - a.2 * b.1,
        Axis::Y => a.2 * b.0 - a.0 * b.2,
        Axis::Z => a.0 * b.1 - a.1 * b.0,
    }
}

/// `swept` for the side that starts at corner `k`.
pub open spec fn side_swept(mesh: MaterialMesh, axis: Axis, k: int) -> int {
    swept(axis, mesh.corner(k), mesh.corner(next_in_face(k)))
}

/// Every side has a side that runs against it: `twin` gives for each
/// corner the corner at which that side starts, and the twin of the twin
/// is the side itself.
pub open spec fn closed_by(mesh: MaterialMesh, twin: Seq<int>) -> bool {
    &&& twin.len() == mesh.indexes().len()
    &&& forall|k: int|
        0 <= k < twin.len() ==> {
            &&& 0 <= #[trigger] twin[k] < twin.len()
            &&& twin[twin[k]] == k
            &&& mesh.corner(twin[k]) == mesh.corner(next_in_face(k))
            &&& mesh.corner(next_in_face(twin[k])) == mesh.corner(k)
        }
}

/// The sum of `side_swept` over the corners below `n`.
pub open spec fn swept_sum(mesh: MaterialMesh, axis: Axis, n: nat) -> int
    decreases n,
{
    if n == 0 {
        0
    } else {
        swept_sum(mesh, axis, (n - 1) as nat) + side_swept(mesh, axis, n - 1)
    }
}

/// The sum of `side_swept` of the twins of the corners below `n`.
spec fn twin_sum(mesh: MaterialMesh, axis: Axis, twin: Seq<int>, n: nat) -> int
    decreases n,
{
    if n == 0 {
        0
    } else {
        twin_sum(mesh, axis, twin, (n - 1) as nat) + side_swept(mesh, axis, twin[n - 1])
    }
}

/// What corner `k` adds at corner `j`: its `side_swept` where `j` is its
/// twin, else nothing.
spec fn share(mesh: MaterialMesh, axis: Axis, twin: Seq<int>, k: int, j: int) -> int {
    if twin[k] == j {
        side_swept(mesh, axis, k)
    } else {
        0
    }
}

spec fn row(mesh: MaterialMesh, axis: Axis, twin: Seq<int>, k: int, m: nat) -> int
    decreases m,
{
    if m == 0 {
        0
    } else {
        row(mesh, axis, twin, k, (m - 1) as nat) + share(mesh, axis, twin, k, m - 1)
    }
}

spec fn column(mesh: MaterialMesh, axis: Axis, twin: Seq<int>, j: int, n: nat) -> int
    decreases n,
{
    if n == 0 {
        0
    } else {
        column(mesh, axis, twin, j, (n - 1) as nat) + share(mesh, axis, twin, n - 1, j)
    }
}

spec fn by_rows(mesh: MaterialMesh, axis: Axis, twin: Seq<int>, n: nat, m: nat) -> int
    decreases n,
{
    if n == 0 {
        0
    } else {
        by_rows(mesh, axis, twin, (n - 1) as nat, m) + row(mesh, axis, twin, n - 1, m)
    }
}

spec fn by_columns(mesh: MaterialMesh, axis: Axis, twin: Seq<int>, n: nat, m: nat) -> int
    decreases m,
{
    if m == 0 {
        0
    } else {
        by_columns(mesh, axis, twin, n, (m - 1) as nat) + column(mesh, axis, twin, m - 1, n)
    }
}

proof fn lemma_one_more_row(mesh: MaterialMesh, axis: Axis, twin: Seq<int>, n: nat, m: nat)
    ensures
        by_columns(mesh, axis, twin, n + 1, m) == by_columns(mesh, axis, twin, n, m) + row(
            mesh,
            axis,
            twin,
            n as int,
            m,
        ),
    decreases m,
{
    if m > 0 {
        lemma_one_more_row(mesh, axis, twin, n, (m - 1) as nat);
    }
}

proof fn lemma_no_rows(mesh: MaterialMesh, axis: Axis, twin: Seq<int>, m: nat)
    ensures
        by_columns(mesh, axis, twin, 0, m) == 0,
    decreases m,
{
    if m > 0 {
        lemma_no_rows(mesh, axis, twin, (m - 1) as nat);
    }
}

proof fn lemma_rows_are_columns(mesh: MaterialMesh, axis: Axis, twin: Seq<int>, n: nat, m: nat)
    ensures
        by_rows(mesh, axis, twin, n, m) == by_columns(mesh, axis, twin, n, m),
    decreases n,
{
    if n == 0 {
        lemma_no_rows(mesh, axis, twin, m);
    } else {
        lemma_rows_are_columns(mesh, axis, twin, (n - 1) as nat, m);
        lemma_one_more_row(mesh, axis, twin, (n - 1) as nat, m);
    }
}

proof fn lemma_row(mesh: MaterialMesh, axis: Axis, twin: Seq<int>, k: int, m: nat)
    ensures
        row(mesh, axis, twin, k, m) == if 0 <= twin[k] < m {
            side_swept(mesh, axis, k)
        } else {
            0
        },
    decreases m,
{
    if m > 0 {
        lemma_row(mesh, axis, twin, k, (m - 1) as nat);
    }
}

proof fn lemma_column(mesh: MaterialMesh, axis: Axis, twin: Seq<int>, j: int, n: nat)
    requires
        closed_by(mesh, twin),
        0 <= j < twin.len(),
        n <= twin.len(),
    ensures
        column(mesh, axis, twin, j, n) == if twin[j] < n {
            side_swept(mesh, axis, twin[j])
        } else {
            0
        },
    decreases n,
{
    if n > 0 {
        lemma_column(mesh, axis, twin, j, (n - 1) as nat);
        let k = n - 1;
        assert(twin[twin[k]] == k);
        assert(twin[twin[j]] == j);
    }
}

proof fn lemma_rows_sum(mesh: MaterialMesh, axis: Axis, twin: Seq<int>, n: nat)
    requires
        closed_by(mesh, twin),
        n <= twin.len(),
    ensures
        by_rows(mesh, axis, twin, n, twin.len()) == swept_sum(mesh, axis, n),
    decreases n,
{
    if n > 0 {
        lemma_rows_sum(mesh, axis, twin, (n - 1) as nat);
        lemma_row(mesh, axis, twin, n - 1, twin.len());
    }
}

proof fn lemma_columns_sum(mesh: MaterialMesh, axis: Axis, twin: Seq<int>, m: nat)
    requires
        closed_by(mesh, twin),
        m <= twin.len(),
    ensures
        by_columns(mesh, axis, twin, twin.len(), m) == twin_sum(mesh, axis, twin, m),
    decreases m,
{
    if m > 0 {
        lemma_columns_sum(mesh, axis, twin, (m - 1) as nat);
        lemma_column(mesh, axis, twin, m - 1, twin.len());
    }
}

/// A side sweeps as much as its twin, the other way.
proof fn lemma_twin_sweeps_back(mesh: MaterialMesh, axis: Axis, twin: Seq<int>, k: int)
    requires
        closed_by(mesh, twin),
        0 <= k < twin.len(),
    ensures
        side_swept(mesh, axis, twin[k]) == -side_swept(mesh, axis, k),
{
    let a = mesh.corner(k);
    let b = mesh.corner(next_in_face(k));
    assert(mesh.corner(twin[k]) == b);
    assert(mesh.corner(next_in_face(twin[k])) == a);
    assert(swept(axis, b, a) == -swept(axis, a, b)) by (nonlinear_arith)
        requires
            swept(axis, b, a) == match axis {
                Axis::X => b.1 * a.2 - b.2 * a.1,
                Axis::Y => b.2 * a.0 - b.0 * a.2,
                Axis::Z => b.0 * a.1 - b.1 * a.0,
            },
            swept(axis, a, b) == match axis {
                Axis::X => a.1 * b.2 - a.2 * b.1,
                Axis::Y => a.2 * b.0 - a.0 * b.2,
                Axis::Z => a.0 * b.1 - a.1 * b.0,
            },
    ;
}

proof fn lemma_twin_sum(mesh: MaterialMesh, axis: Axis, twin: Seq<int>, n: nat)
    requires
        closed_by(mesh, twin),
        n <= twin.len(),
    ensures
        twin_sum(mesh, axis, twin, n) == -swept_sum(mesh, axis, n),
    decreases n,
{
    if n > 0 {
        lemma_twin_sum(mesh, axis, twin, (n - 1) as nat);
        lemma_twin_sweeps_back(mesh, axis, twin, n - 1);
    }
}

/// Over a closed mesh the sides sweep nothing in all.
pub proof fn lemma_closed_sweeps_nothing(mesh: MaterialMesh, axis: Axis, twin: Seq<int>)
    requires
        closed_by(mesh, twin),
    ensures
        swept_sum(mesh, axis, mesh.indexes().len()) == 0,
{
    let n = twin.len();
    lemma_rows_sum(mesh, axis, twin, n);
    lemma_columns_sum(mesh, axis, twin, n);
    lemma_rows_are_columns(mesh, axis, twin, n, n);
    lemma_twin_sum(mesh, axis, twin, n);
}

/// The doubled area of a triangle is what its three sides sweep.
proof fn lemma_area_is_swept(axis: Axis, a: Point3, b: Point3, c: Point3)
    ensures
        doubled_area(axis, (a, b, c)) == swept(axis, a, b) + swept(axis, b, c) + swept(axis, c, a),
{
    let (ax, ay, az) = (a.0 as int, a.1 as int, a.2 as int);
    let (bx, by, bz) = (b.0 as int, b.1 as int, b.2 as int);
    let (cx, cy, cz) = (c.0 as int, c.1 as int, c.2 as int);
    assert((by - ay) * (cz - az) - (bz - az) * (cy - ay) == (ay * bz - az * by) + (by * cz - bz
        * cy) + (cy * az - cz * ay)) by (nonlinear_arith);
    assert((bz - az) * (cx - ax) - (bx - ax) * (cz - az) == (az * bx - ax * bz) + (bz * cx - bx
        * cz) + (cz * ax - cx * az)) by (nonlinear_arith);
    assert((bx - ax) * (cy - ay) - (by - ay) * (cx - ax) == (ax * by - ay * bx) + (bx * cy - by
        * cx) + (cx * ay - cy * ax)) by (nonlinear_arith);
}

/// The doubled area of a face of a mesh is within `FACE_AREA_MAX`.
proof fn lemma_area_in_range(axis: Axis, p: (Point3, Point3, Point3))
    requires
        point3_ok(p.0),
        point3_ok(p.1),
        point3_ok(p.2),
    ensures
        -FACE_AREA_MAX <= doubled_area(axis, p) <= FACE_AREA_MAX,
{
    let a = (p.1.0 - p.0.0, p.1.1 - p.0.1, p.1.2 - p.0.2);
    let b = (p.2.0 - p.0.0, p.2.1 - p.0.1, p.2.2 - p.0.2);
    let m: int = 1_000_000_000;
    assert forall|u: int, v: int| -m <= u <= m && -m <= v <= m implies -(m * m) <= #[trigger] (u
        * v) <= m * m by {
        assert(-(m * m) <= u * v <= m * m) by (nonlinear_arith)
            requires
                -m <= u <= m,
                -m <= v <= m,
        ;
    }
    assert(m * m == 1_000_000_000_000_000_000) by (nonlinear_arith)
        requires
            m == 1_000_000_000,
    ;
    assert(-(m * m) <= a.1 * b.2 <= m * m);
    assert(-(m * m) <= a.2 * b.1 <= m * m);
    assert(-(m * m) <= a.2 * b.0 <= m * m);
    assert(-(m * m) <= a.0 * b.2 <= m * m);
    assert(-(m * m) <= a.0 * b.1 <= m * m);
    assert(-(m * m) <= a.1 * b.0 <= m * m);
}

/// The areas of the faces of a mesh add up to what its sides sweep.
proof fn lemma_areas_are_swept(mesh: MaterialMesh, axis: Axis, f: nat)
    requires
        well_indexed(mesh.positions(), mesh.indexes(), mesh.tags()),
        f <= mesh.tags().len(),
    ensures
        total_area(face_ranges(mesh, axis, f)) == swept_sum(mesh, axis, 3 * f),
        areas_within(face_ranges(mesh, axis, f), FACE_AREA_MAX as int),
        face_ranges(mesh, axis, f).len() == f,
    decreases f,
{
    if f > 0 {
        lemma_areas_are_swept(mesh, axis, (f - 1) as nat);
        let g: int = f - 1;
        let before = face_ranges(mesh, axis, g as nat);
        let all = face_ranges(mesh, axis, f);
        let p = (mesh.corner(3 * g), mesh.corner(3 * g + 1), mesh.corner(3 * g + 2));
        assert(point3_ok(p.0) && point3_ok(p.1) && point3_ok(p.2)) by {
            assert((mesh.indexes()[3 * g] as int) < mesh.positions().len());
            assert((mesh.indexes()[3 * g + 1] as int) < mesh.positions().len());
            assert((mesh.indexes()[3 * g + 2] as int) < mesh.positions().len());
        }
        lemma_area_in_range(axis, p);
        lemma_area_is_swept(axis, p.0, p.1, p.2);
        assert(all.drop_last() =~= before);
        assert(all.last() == face_range(mesh, axis, g));
        assert(next_in_face(3 * g) == 3 * g + 1);
        assert(next_in_face(3 * g + 1) == 3 * g + 2);
        assert(next_in_face(3 * g + 2) == 3 * g);
        assert(swept_sum(mesh, axis, (3 * g + 3) as nat) == swept_sum(mesh, axis, (3 * g + 2) as nat)
            + side_swept(mesh, axis, 3 * g + 2));
        assert(swept_sum(mesh, axis, (3 * g + 2) as nat) == swept_sum(mesh, axis, (3 * g + 1) as nat)
            + side_swept(mesh, axis, 3 * g + 1));
        assert(swept_sum(mesh, axis, (3 * g + 1) as nat) == swept_sum(mesh, axis, (3 * g) as nat)
            + side_swept(mesh, axis, 3 * g));
    }
}

/// Over a closed mesh the net projected areas of the stretches of any
/// axis add up to nothing: whatever enters the mesh along the axis leaves
/// it again.
pub proof fn lemma_closed_mesh_turns_nothing(mesh: MaterialMesh, axis: Axis, twin: Seq<int>)
    requires
        well_indexed(mesh.positions(), mesh.indexes(), mesh.tags()),
        closed_by(mesh, twin),
    ensures
        total_area(merged(by_min(face_ranges(mesh, axis, mesh.tags().len())))) == 0,
{
    let faces = mesh.tags().len();
    lemma_areas_are_swept(mesh, axis, faces);
    lemma_closed_sweeps_nothing(mesh, axis, twin);
    lemma_stretches_keep_area(face_ranges(mesh, axis, faces));
}

} // verus!
