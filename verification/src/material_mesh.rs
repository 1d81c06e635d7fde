//! Triangle meshes with a material on every face, as indexed triangles.

use crate::lattice::is_point3_ok;
use crate::lattice::point3_ok;
use crate::lattice::snap;
use crate::lattice::snapped;
use crate::lattice::Point3;
use crate::lattice::COORD_MAX;
use crate::lattice::FACES_MAX;
use crate::seqs::distinct;
use crate::seqs::lemma_distinct_step;
use vstd::prelude::*;

verus! {

/// The tag of a material. Zero stands for no material and is no tag.
#[derive(Clone, Copy, Debug, PartialEq, Eq, Hash, PartialOrd, Ord)]
pub struct MaterialID {
    id: u32,
}

impl MaterialID {
    #[verifier::type_invariant]
    spec fn nonzero(self) -> bool {
        self.id != 0
    }

    /// The number of the material.
    pub closed spec fn value(self) -> int {
        self.id as int
    }

    /// Tags of one number are one tag.
    pub proof fn lemma_same_value(a: Self, b: Self)
        requires
            a.value() == b.value(),
        ensures
            a == b,
    {
    }

    /// The tag of material `id`, which is not zero.
    pub fn new(id: u32) -> (tag: Self)
        requires
            id != 0,
        ensures
            tag.value() == id,
    {
        MaterialID { id }
    }

    /// The tag of material `id`, or nothing for zero.
    pub fn checked(id: u32) -> (tag: Option<Self>)
        ensures
            id == 0 ==> tag is None,
            id != 0 ==> tag is Some && tag->0.value() == id,
    {
        if id == 0 {
            None
        } else {
            Some(MaterialID { id })
        }
    }

    /// The number of the material, never zero.
    pub fn get(self) -> (id: u32)
        ensures
            id == self.value(),
            id != 0,
    {
        proof {
            use_type_invariant(self);
        }
        self.id
    }

    /// Whether two tags name the same material.
    pub fn same(self, other: Self) -> (r: bool)
        ensures
            r == (self.value() == other.value()),
            r == (self == other),
    {
        self.id == other.id
    }
}

impl Default for MaterialID {
    /// The first material.
    fn default() -> (tag: Self)
        ensures
            tag.value() == 1,
    {
        MaterialID { id: 1 }
    }
}

/// One of the three coordinate axes.
#[derive(Clone, Copy, Debug, PartialEq, Eq)]
pub enum Axis {
    X,
    Y,
    Z,
}

impl Axis {
    /// The number of the axis: 0, 1 or 2.
    pub open spec fn index(self) -> int {
        match self {
            Axis::X => 0,
            Axis::Y => 1,
            Axis::Z => 2,
        }
    }

    /// The coordinate of `p` along the axis.
    pub open spec fn coord(self, p: Point3) -> i64 {
        match self {
            Axis::X => p.0,
            Axis::Y => p.1,
            Axis::Z => p.2,
        }
    }

    /// `p`, with its coordinate along the axis set to `c`.
    pub open spec fn replaced(self, p: Point3, c: i64) -> Point3 {
        match self {
            Axis::X => (c, p.1, p.2),
            Axis::Y => (p.0, c, p.2),
            Axis::Z => (p.0, p.1, c),
        }
    }

    /// `p`, with its coordinate along the axis set to `c`.
    pub fn replace(self, p: Point3, c: i64) -> (r: Point3)
        ensures
            r == self.replaced(p, c),
    {
        match self {
            Axis::X => (c, p.1, p.2),
            Axis::Y => (p.0, c, p.2),
            Axis::Z => (p.0, p.1, c),
        }
    }

    /// The vector of one lattice step along the axis.
    pub fn unit_dir(self) -> (dir: Point3)
        ensures
            self.coord(dir) == 1,
            dir.0 + dir.1 + dir.2 == 1,
            dir == match self {
                Axis::X => (1i64, 0i64, 0i64),
                Axis::Y => (0i64, 1i64, 0i64),
                Axis::Z => (0i64, 0i64, 1i64),
            },
    {
        match self {
            Axis::X => (1, 0, 0),
            Axis::Y => (0, 1, 0),
            Axis::Z => (0, 0, 1),
        }
    }

    /// The coordinate of `p` along the axis.
    pub fn along(self, p: Point3) -> (c: i64)
        ensures
            c == self.coord(p),
    {
        match self {
            Axis::X => p.0,
            Axis::Y => p.1,
            Axis::Z => p.2,
        }
    }
}

/// A triangle mesh with a material on every face: the positions of the
/// vertices, three vertex indices for each face, and one tag for each face.
#[derive(Debug)]
pub struct MaterialMesh {
    positions: Vec<Point3>,
    indexes: Vec<u32>,
    tags: Vec<MaterialID>,
}

/// Three indices for each tag, each of them the index of a position; no
/// more than `FACES_MAX` faces, and every coordinate within `COORD_MAX`.
pub open spec fn well_indexed(positions: Seq<Point3>, indexes: Seq<u32>, tags: Seq<MaterialID>) -> bool {
    &&& tags.len() <= FACES_MAX
    &&& indexes.len() == 3 * tags.len()
    &&& forall|k: int| 0 <= k < indexes.len() ==> (#[trigger] indexes[k] as int) < positions.len()
    &&& forall|v: int| 0 <= v < positions.len() ==> point3_ok(#[trigger] positions[v])
}

/// The two vertices of the side that starts at corner `k`, the lower
/// number first.
pub open spec fn side_of(indexes: Seq<u32>, k: int) -> (u32, u32) {
    let a = indexes[k];
    let b = indexes[k / 3 * 3 + (k + 1) % 3];
    if a <= b {
        (a, b)
    } else {
        (b, a)
    }
}

/// The sides of all faces, each by its two vertices.
pub open spec fn sides(indexes: Seq<u32>) -> Seq<(u32, u32)> {
    Seq::new(indexes.len(), |k: int| side_of(indexes, k))
}

impl MaterialMesh {
    #[verifier::type_invariant]
    spec fn valid(self) -> bool {
        well_indexed(self.positions@, self.indexes@, self.tags@)
    }

    /// The positions of the vertices.
    pub closed spec fn positions(self) -> Seq<Point3> {
        self.positions@
    }

    /// The vertex indices of the faces, three for each face.
    pub closed spec fn indexes(self) -> Seq<u32> {
        self.indexes@
    }

    /// The materials of the faces.
    pub closed spec fn tags(self) -> Seq<MaterialID> {
        self.tags@
    }

    /// The position of corner `k` of the mesh: corner `k % 3` of face `k / 3`.
    pub open spec fn corner(self, k: int) -> Point3 {
        self.positions()[self.indexes()[k] as int]
    }

    /// The mesh of the given vertices and faces, or nothing where the
    /// indices do not come three to a tag, one of them names no vertex,
    /// there are too many faces or a coordinate is out of range.
    pub fn new(positions: Vec<Point3>, indexes: Vec<u32>, tags: Vec<MaterialID>) -> (mesh: Option<
        Self,
    >)
        ensures
            mesh is Some <==> well_indexed(positions@, indexes@, tags@),
            mesh is Some ==> mesh->0.positions() == positions@ && mesh->0.indexes() == indexes@
                && mesh->0.tags() == tags@,
    {
        if tags.len() > FACES_MAX {
            return None;
        }
        if indexes.len() as u64 != 3 * (tags.len() as u64) {
            return None;
        }
        let mut k: usize = 0;
        while k < indexes.len()
            invariant
                0 <= k <= indexes.len(),
                forall|j: int| 0 <= j < k ==> (#[trigger] indexes[j] as int) < positions.len(),
            decreases indexes.len() - k,
        {
            if indexes[k] as usize >= positions.len() {
                return None;
            }
            k += 1;
        }
        let mut v: usize = 0;
        while v < positions.len()
            invariant
                0 <= v <= positions.len(),
                forall|j: int| 0 <= j < v ==> point3_ok(#[trigger] positions[j]),
            decreases positions.len() - v,
        {
            if !is_point3_ok(positions[v]) {
                return None;
            }
            v += 1;
        }
        Some(MaterialMesh { positions, indexes, tags })
    }

    /// The mesh of the given vertices and faces.
    pub(crate) fn from_parts(positions: Vec<Point3>, indexes: Vec<u32>, tags: Vec<MaterialID>) -> (mesh:
        Self)
        requires
            well_indexed(positions@, indexes@, tags@),
        ensures
            mesh.positions() == positions@,
            mesh.indexes() == indexes@,
            mesh.tags() == tags@,
    {
        MaterialMesh { positions, indexes, tags }
    }

    /// The vertex indices of the faces, three for each face.
    pub fn index_buffer(&self) -> (r: &Vec<u32>)
        ensures
            r@ == self.indexes(),
            well_indexed(self.positions(), self.indexes(), self.tags()),
    {
        proof {
            use_type_invariant(self);
        }
        &self.indexes
    }

    /// The positions of the vertices.
    pub fn position_buffer(&self) -> (r: &Vec<Point3>)
        ensures
            r@ == self.positions(),
            well_indexed(self.positions(), self.indexes(), self.tags()),
    {
        proof {
            use_type_invariant(self);
        }
        &self.positions
    }

    /// The materials of the faces.
    pub fn tag_buffer(&self) -> (r: &Vec<MaterialID>)
        ensures
            r@ == self.tags(),
            well_indexed(self.positions(), self.indexes(), self.tags()),
    {
        proof {
            use_type_invariant(self);
        }
        &self.tags
    }

    /// The number of vertices.
    pub fn num_vertices(&self) -> (n: usize)
        ensures
            n == self.positions().len(),
    {
        self.positions.len()
    }

    /// The number of faces. There are three vertex indices for each.
    pub fn num_faces(&self) -> (n: usize)
        ensures
            n == self.tags().len(),
            self.indexes().len() == 3 * n,
            n <= FACES_MAX,
    {
        proof {
            use_type_invariant(self);
        }
        self.tags.len()
    }

    /// The position of vertex `v`.
    pub fn vertex_position(&self, v: usize) -> (p: Point3)
        requires
            v < self.positions().len(),
        ensures
            p == self.positions()[v as int],
            point3_ok(p),
    {
        proof {
            use_type_invariant(self);
        }
        self.positions[v]
    }

    /// The vertices of face `f`.
    pub fn face_vertices(&self, f: usize) -> (v: (u32, u32, u32))
        requires
            f < self.tags().len(),
        ensures
            self.indexes().len() == 3 * self.tags().len(),
            v.0 == self.indexes()[3 * f],
            v.1 == self.indexes()[3 * f + 1],
            v.2 == self.indexes()[3 * f + 2],
            (v.0 as int) < self.positions().len(),
            (v.1 as int) < self.positions().len(),
            (v.2 as int) < self.positions().len(),
    {
        let n = self.indexes.len();
        proof {
            use_type_invariant(self);
            assert(n == 3 * self.tags@.len());
            assert((self.indexes@[3 * f] as int) < self.positions@.len());
            assert((self.indexes@[3 * f + 1] as int) < self.positions@.len());
            assert((self.indexes@[3 * f + 2] as int) < self.positions@.len());
        }
        (self.indexes[3 * f], self.indexes[3 * f + 1], self.indexes[3 * f + 2])
    }

    /// The positions of the corners of face `f`.
    pub fn face_positions(&self, f: usize) -> (p: (Point3, Point3, Point3))
        requires
            f < self.tags().len(),
        ensures
            p.0 == self.corner(3 * f),
            p.1 == self.corner(3 * f + 1),
            p.2 == self.corner(3 * f + 2),
            point3_ok(p.0),
            point3_ok(p.1),
            point3_ok(p.2),
    {
        proof {
            use_type_invariant(self);
        }
        let v = self.face_vertices(f);
        (self.positions[v.0 as usize], self.positions[v.1 as usize], self.positions[v.2 as usize])
    }

    /// The material of face `f`.
    pub fn face_tag(&self, f: usize) -> (tag: MaterialID)
        requires
            f < self.tags().len(),
        ensures
            tag == self.tags()[f as int],
    {
        self.tags[f]
    }

    /// The number of edges: of pairs of vertices that a side of a face joins.
    pub fn num_edges(&self) -> (n: usize)
        ensures
            n == distinct(sides(self.indexes())).len(),
    {
        let count = self.indexes.len();
        proof {
            use_type_invariant(self);
        }
        let mut seen: Vec<(u32, u32)> = Vec::new();
        let mut k: usize = 0;
        let ghost all = sides(self.indexes@);
        assert(all.take(0) =~= Seq::<(u32, u32)>::empty());
        while k < count
            invariant
                0 <= k <= count,
                count == self.indexes.len(),
                count % 3 == 0,
                all == sides(self.indexes@),
                seen@ == distinct(all.take(k as int)),
                seen.len() <= k,
            decreases count - k,
        {
            let a = self.indexes[k];
            let b = self.indexes[k - k % 3 + (k % 3 + 1) % 3];
            let side: (u32, u32) = if a <= b {
                (a, b)
            } else {
                (b, a)
            };
            proof {
                assert(all[k as int] == side);
                lemma_distinct_step(all, k as int);
            }
            let mut j: usize = 0;
            while j < seen.len() && !(seen[j].0 == side.0 && seen[j].1 == side.1)
                invariant
                    0 <= j <= seen.len(),
                    forall|i: int| 0 <= i < j ==> seen[i] != side,
                decreases seen.len() - j,
            {
                j += 1;
            }
            if j == seen.len() {
                seen.push(side);
            }
            k += 1;
        }
        proof {
            assert(all.take(count as int) =~= all);
        }
        seen.len()
    }

    /// Moves every vertex that is less than `SNAP` from a slice plane of
    /// the axis onto that plane. The planes lie at the multiples of
    /// `spacing`.
    pub fn align_with_slice_planes(&mut self, axis: Axis, spacing: i64)
        requires
            spacing > 0,
        ensures
            final(self).indexes() == old(self).indexes(),
            final(self).tags() == old(self).tags(),
            final(self).positions().len() == old(self).positions().len(),
            forall|v: int|
                0 <= v < old(self).positions().len() ==> #[trigger] final(self).positions()[v]
                    == axis.replaced(
                    old(self).positions()[v],
                    snapped(axis.coord(old(self).positions()[v]), spacing as int),
                ),
    {
        proof {
            use_type_invariant(&*self);
        }
        let n = self.positions.len();
        let mut moved: Vec<Point3> = Vec::new();
        let mut v: usize = 0;
        while v < n
            invariant
                0 <= v <= n,
                spacing > 0,
                n == self.positions.len(),
                self == old(self),
                well_indexed(self.positions@, self.indexes@, self.tags@),
                moved.len() == v,
                forall|w: int|
                    0 <= w < v ==> point3_ok(#[trigger] moved[w]) && moved[w] == axis.replaced(
                        self.positions[w],
                        snapped(axis.coord(self.positions[w]), spacing as int),
                    ),
            decreases n - v,
        {
            let p = self.positions[v];
            moved.push(axis.replace(p, snap(axis.along(p), spacing)));
            v += 1;
        }
        self.positions = moved;
    }

    /// The mesh moved by `by`, or nothing where a vertex would leave the
    /// range of coordinates.
    pub fn translated(&self, by: Point3) -> (moved: Option<MaterialMesh>)
        ensures
            moved is Some <==> forall|v: int|
                0 <= v < self.positions().len() ==> point3_ok_wide(
                    #[trigger] self.positions()[v],
                    by,
                ),
            moved is Some ==> {
                &&& moved->0.indexes() == self.indexes()
                &&& moved->0.tags() == self.tags()
                &&& moved->0.positions().len() == self.positions().len()
                &&& forall|v: int|
                    0 <= v < self.positions().len() ==> {
                        &&& (#[trigger] moved->0.positions()[v]).0 == self.positions()[v].0 + by.0
                        &&& moved->0.positions()[v].1 == self.positions()[v].1 + by.1
                        &&& moved->0.positions()[v].2 == self.positions()[v].2 + by.2
                    }
            },
    {
        proof {
            use_type_invariant(self);
        }
        let n = self.positions.len();
        let mut positions: Vec<Point3> = Vec::new();
        let mut v: usize = 0;
        while v < n
            invariant
                0 <= v <= n,
                n == self.positions.len(),
                well_indexed(self.positions@, self.indexes@, self.tags@),
                positions.len() == v,
                forall|w: int| 0 <= w < v ==> point3_ok_wide(#[trigger] self.positions[w], by),
                forall|w: int|
                    0 <= w < v ==> {
                        &&& point3_ok(#[trigger] positions[w])
                        &&& positions[w].0 == self.positions[w].0 + by.0
                        &&& positions[w].1 == self.positions[w].1 + by.1
                        &&& positions[w].2 == self.positions[w].2 + by.2
                    },
            decreases n - v,
        {
            let p = self.positions[v];
            let x: i128 = p.0 as i128 + by.0 as i128;
            let y: i128 = p.1 as i128 + by.1 as i128;
            let z: i128 = p.2 as i128 + by.2 as i128;
            let top: i128 = COORD_MAX as i128;
            if x < -top || x > top || y < -top || y > top || z < -top || z > top {
                assert(!point3_ok_wide(self.positions()[v as int], by));
                return None;
            }
            positions.push((x as i64, y as i64, z as i64));
            v += 1;
        }
        let indexes = crate::seqs::copy_of(&self.indexes);
        let tags = crate::seqs::copy_of(&self.tags);
        Some(MaterialMesh { positions, indexes, tags })
    }
}

/// `p` moved by `by` is within the range of coordinates.
pub open spec fn point3_ok_wide(p: Point3, by: Point3) -> bool {
    &&& -COORD_MAX <= p.0 + by.0 <= COORD_MAX
    &&& -COORD_MAX <= p.1 + by.1 <= COORD_MAX
    &&& -COORD_MAX <= p.2 + by.2 <= COORD_MAX
}

} // verus!
