//! Cutting a contoured mesh into slabs: each face goes to the slab that
//! holds its centre, and every slab becomes a mesh of its own.

use crate::manifold::number_vertices;
use crate::manifold::numbers_vertices;
use crate::manifold::used_before;
use crate::material_mesh::Axis;
use crate::material_mesh::MaterialID;
use crate::material_mesh::MaterialMesh;
use crate::lattice::Point3;
use vstd::prelude::*;

verus! {

/// Three times the coordinate of the centre of face `f` along the axis.
pub open spec fn tripled_centre(mesh: MaterialMesh, axis: Axis, f: int) -> int {
    axis.coord(mesh.corner(3 * f)) + axis.coord(mesh.corner(3 * f + 1)) + axis.coord(
        mesh.corner(3 * f + 2),
    )
}

/// The centre of face `f` lies strictly between the planes `lower` and
/// `lower + spacing`.
pub open spec fn in_slab(mesh: MaterialMesh, axis: Axis, f: int, lower: int, spacing: int) -> bool {
    3 * lower < tripled_centre(mesh, axis, f) < 3 * (lower + spacing)
}

/// The faces among the first `n` whose centre lies in the slab, in order.
pub open spec fn slab_faces(
    mesh: MaterialMesh,
    axis: Axis,
    lower: int,
    spacing: int,
    n: nat,
) -> Seq<int>
    decreases n,
{
    if n == 0 {
        Seq::empty()
    } else {
        let before = slab_faces(mesh, axis, lower, spacing, (n - 1) as nat);
        if in_slab(mesh, axis, n - 1, lower, spacing) {
            before.push(n - 1)
        } else {
            before
        }
    }
}

/// The vertex of `mesh` at each corner of the chosen faces.
pub open spec fn chosen_vertices(mesh: MaterialMesh, faces: Seq<int>) -> Seq<int> {
    Seq::new(3 * faces.len(), |i: int| mesh.indexes()[3 * faces[i / 3] + i % 3] as int)
}

/// `part` is the mesh of the chosen faces of `mesh`: the same faces with
/// the same materials, in the same order, over the vertices that they use,
/// numbered in the order of their first use.
pub open spec fn is_part(part: MaterialMesh, mesh: MaterialMesh, faces: Seq<int>) -> bool {
    &&& part.tags().len() == faces.len()
    &&& forall|i: int| 0 <= i < faces.len() ==> #[trigger] part.tags()[i] == mesh.tags()[faces[i]]
    &&& numbers_vertices(part.indexes(), chosen_vertices(mesh, faces))
    &&& forall|i: int|
        0 <= i < part.indexes().len() ==> #[trigger] part.corner(i) == mesh.corner(
            3 * faces[i / 3] + i % 3,
        )
    &&& forall|v: int|
        0 <= v < part.positions().len() ==> #[trigger] used_before(
            part.indexes(),
            part.indexes().len() as int,
            v,
        )
}

/// The slabs below number `k` that hold a face, in rising order.
pub open spec fn occupied(
    mesh: MaterialMesh,
    axis: Axis,
    spacing: int,
    min_slice: int,
    k: nat,
) -> Seq<int>
    decreases k,
{
    if k == 0 {
        Seq::empty()
    } else {
        let before = occupied(mesh, axis, spacing, min_slice, (k - 1) as nat);
        if slab_faces(mesh, axis, min_slice + (k - 1) * spacing, spacing, mesh.tags().len()).len()
            > 0 {
            before.push(k - 1)
        } else {
            before
        }
    }
}

impl MaterialMesh {
    /// The faces whose centre lies strictly between the planes `lower` and
    /// `lower + spacing`, in order.
    fn faces_between(&self, axis: Axis, lower: i64, spacing: i64) -> (faces: Vec<usize>)
        requires
            spacing > 0,
        ensures
            faces.len() <= self.tags().len(),
            forall|i: int| 0 <= i < faces.len() ==> (#[trigger] faces[i]) < self.tags().len(),
            Seq::new(faces.len() as nat, |i: int| faces[i] as int) == slab_faces(
                *self,
                axis,
                lower as int,
                spacing as int,
                self.tags().len(),
            ),
    {
        let n = self.num_faces();
        let mut faces: Vec<usize> = Vec::new();
        let mut f: usize = 0;
        while f < n
            invariant
                0 <= f <= n,
                n == self.tags().len(),
                faces.len() <= f,
                forall|i: int| 0 <= i < faces.len() ==> (#[trigger] faces[i]) < n,
                Seq::new(faces.len() as nat, |i: int| faces[i] as int) == slab_faces(
                    *self,
                    axis,
                    lower as int,
                    spacing as int,
                    f as nat,
                ),
            decreases n - f,
        {
            let p = self.face_positions(f);
            let sum: i128 = axis.along(p.0) as i128 + axis.along(p.1) as i128 + axis.along(
                p.2,
            ) as i128;
            let low: i128 = 3 * (lower as i128);
            let high: i128 = 3 * (lower as i128 + spacing as i128);
            let ghost before = Seq::new(faces.len() as nat, |i: int| faces[i] as int);
            if low < sum && sum < high {
                faces.push(f);
                proof {
                    assert(Seq::new(faces.len() as nat, |i: int| faces[i] as int) =~= before.push(
                        f as int,
                    ));
                }
            }
            f += 1;
        }
        faces
    }

    /// The mesh of the given faces.
    fn part(&self, faces: &Vec<usize>) -> (part: MaterialMesh)
        requires
            faces.len() <= self.tags().len(),
            forall|i: int| 0 <= i < faces.len() ==> (#[trigger] faces[i]) < self.tags().len(),
        ensures
            is_part(part, *self, Seq::new(faces.len() as nat, |i: int| faces[i] as int)),
    {
        let n = self.num_faces();
        let ghost chosen = Seq::new(faces.len() as nat, |i: int| faces[i] as int);
        let mut labels: Vec<usize> = Vec::new();
        let mut tags: Vec<MaterialID> = Vec::new();
        let mut i: usize = 0;
        while i < faces.len()
            invariant
                0 <= i <= faces.len(),
                n == self.tags().len(),
                self.indexes().len() == 3 * n,
                faces.len() <= n,
                forall|j: int| 0 <= j < faces.len() ==> (#[trigger] faces[j]) < n,
                chosen == Seq::new(faces.len() as nat, |i: int| faces[i] as int),
                labels.len() == 3 * i,
                tags.len() == i,
                forall|j: int| 0 <= j < i ==> #[trigger] tags[j] == self.tags()[faces[j] as int],
                forall|c: int|
                    0 <= c < 3 * i ==> #[trigger] labels[c] as int == chosen_vertices(
                        *self,
                        chosen,
                    )[c] && (labels[c] as int) < self.positions().len(),
            decreases faces.len() - i,
        {
            let f = faces[i];
            let v = self.face_vertices(f);
            labels.push(v.0 as usize);
            labels.push(v.1 as usize);
            labels.push(v.2 as usize);
            tags.push(self.face_tag(f));
            i += 1;
        }
        let (indexes, firsts) = number_vertices(&labels);
        let mut positions: Vec<Point3> = Vec::new();
        let mut v: usize = 0;
        while v < firsts.len()
            invariant
                0 <= v <= firsts.len(),
                positions.len() == v,
                forall|w: int| 0 <= w < firsts.len() ==> (#[trigger] firsts[w]) < labels.len(),
                forall|c: int|
                    0 <= c < labels.len() ==> (#[trigger] labels[c] as int)
                        < self.positions().len(),
                forall|w: int|
                    0 <= w < v ==> #[trigger] positions[w] == self.positions()[labels[firsts[w] as int] as int]
                        && crate::lattice::point3_ok(positions[w]),
            decreases firsts.len() - v,
        {
            positions.push(self.vertex_position(labels[firsts[v]]));
            v += 1;
        }
        proof {
            let l = Seq::new(labels.len() as nat, |i: int| labels[i] as int);
            assert(l =~= chosen_vertices(*self, chosen));
            assert forall|c: int| 0 <= c < indexes.len() implies positions[indexes[c] as int]
                == self.corner(3 * chosen[c / 3] + c % 3) by {
                let first = firsts[indexes[c] as int] as int;
                assert(indexes[first] == indexes[c]);
                assert(l[first] == l[c]);
            }
            assert forall|w: int| 0 <= w < positions.len() implies #[trigger] used_before(
                indexes@,
                indexes.len() as int,
                w,
            ) by {
                assert(indexes[firsts[w] as int] == w);
            }
        }
        let ghost placed = positions@;
        let ghost numbered = indexes@;
        let part = MaterialMesh::from_parts(positions, indexes, tags);
        proof {
            assert forall|c: int| 0 <= c < part.indexes().len() implies #[trigger] part.corner(c)
                == self.corner(3 * chosen[c / 3] + c % 3) by {
                assert(placed[numbered[c] as int] == self.corner(3 * chosen[c / 3] + c % 3));
            }
            assert forall|w: int| 0 <= w < part.positions().len() implies #[trigger] used_before(
                part.indexes(),
                part.indexes().len() as int,
                w,
            ) by {
                assert(used_before(numbered, numbered.len() as int, w));
            }
        }
        part
    }

    /// The slabs of a mesh that is contoured along the axis at the planes
    /// `min_slice + k * spacing`: for each slab between two neighbouring
    /// planes from `min_slice` up to `max_slice` that holds the centre of a
    /// face, its lower plane and the mesh of the faces whose centre it
    /// holds, the slabs in rising order. A face whose centre lies on a
    /// plane is in no slab.
    pub fn contour_slice(&self, axis: Axis, spacing: i64, min_slice: i64, max_slice: i64) -> (slabs:
        Vec<(i64, MaterialMesh)>)
        requires
            spacing > 0,
            min_slice <= max_slice,
        ensures
            slabs.len() == occupied(
                *self,
                axis,
                spacing as int,
                min_slice as int,
                ((max_slice - min_slice) / (spacing as int)) as nat,
            ).len(),
            forall|j: int|
                0 <= j < slabs.len() ==> {
                    let k = occupied(
                        *self,
                        axis,
                        spacing as int,
                        min_slice as int,
                        ((max_slice - min_slice) / (spacing as int)) as nat,
                    )[j];
                    &&& (#[trigger] slabs[j]).0 == min_slice + k * spacing
                    &&& is_part(
                        slabs[j].1,
                        *self,
                        slab_faces(
                            *self,
                            axis,
                            min_slice + k * spacing,
                            spacing as int,
                            self.tags().len(),
                        ),
                    )
                },
    {
        let count: i128 = (max_slice as i128 - min_slice as i128) / (spacing as i128);
        let mut slabs: Vec<(i64, MaterialMesh)> = Vec::new();
        let mut k: i128 = 0;
        let mut lower: i64 = min_slice;
        while k < count
            invariant
                0 <= k <= count,
                spacing > 0,
                min_slice <= max_slice,
                count == (max_slice - min_slice) / (spacing as int),
                k < count ==> lower == min_slice + k * spacing,
                slabs.len() == occupied(
                    *self,
                    axis,
                    spacing as int,
                    min_slice as int,
                    k as nat,
                ).len(),
                forall|j: int|
                    0 <= j < slabs.len() ==> {
                        let at = occupied(
                            *self,
                            axis,
                            spacing as int,
                            min_slice as int,
                            k as nat,
                        )[j];
                        &&& (#[trigger] slabs[j]).0 == min_slice + at * spacing
                        &&& is_part(
                            slabs[j].1,
                            *self,
                            slab_faces(
                                *self,
                                axis,
                                min_slice + at * spacing,
                                spacing as int,
                                self.tags().len(),
                            ),
                        )
                    },
            decreases count - k,
        {
            let faces = self.faces_between(axis, lower, spacing);
            if faces.len() > 0 {
                let part = self.part(&faces);
                slabs.push((lower, part));
            }
            proof {
                let sp = spacing as int;
                assert(count * sp <= max_slice - min_slice) by (nonlinear_arith)
                    requires
                        count == (max_slice - min_slice) / sp,
                        sp > 0,
                        max_slice - min_slice >= 0,
                ;
                assert((k + 1) * sp <= count * sp) by (nonlinear_arith)
                    requires
                        k + 1 <= count,
                        sp > 0,
                ;
                assert((k + 1) * sp == k * sp + sp) by (nonlinear_arith);
            }
            k += 1;
            if k < count {
                lower = lower + spacing;
            }
        }
        slabs
    }
}

} // verus!
