//! Where a mesh goes from outside to inside along an axis: the stretches
//! of the axis that its faces cover, each with the net area that the faces
//! over it turn against the axis.

use crate::lattice::point3_ok;
use crate::lattice::rounded;
use crate::lattice::Point3;
use crate::lattice::FACES_MAX;
use crate::material_mesh::Axis;
use crate::material_mesh::MaterialMesh;
use vstd::prelude::*;

verus! {

/// The stretch of the axis that one face covers, and twice the area of its
/// projection along the axis, positive where the face looks along the axis.
#[derive(Clone, Copy, Debug)]
pub struct FaceRange {
    pub min: i64,
    pub max: i64,
    pub area: i128,
}

/// Twice the signed area of the triangle projected along the axis: the
/// part along the axis of the cross product of its first two sides.
pub open spec fn doubled_area(axis: Axis, p: (Point3, Point3, Point3)) -> int {
    let a = (p.1.0 - p.0.0, p.1.1 - p.0.1, p.1.2 - p.0.2);
    let b = (p.2.0 - p.0.0, p.2.1 - p.0.1, p.2.2 - p.0.2);
    match axis {
        Axis::X => a.1 * b.2 - a.2 * b.1,
        Axis::Y => a.2 * b.0 - a.0 * b.2,
        Axis::Z => a.0 * b.1 - a.1 * b.0,
    }
}

pub open spec fn least(a: i64, b: i64, c: i64) -> i64 {
    if a <= b && a <= c {
        a
    } else if b <= c {
        b
    } else {
        c
    }
}

pub open spec fn greatest(a: i64, b: i64, c: i64) -> i64 {
    if a >= b && a >= c {
        a
    } else if b >= c {
        b
    } else {
        c
    }
}

/// What face `f` of the mesh covers along the axis.
pub open spec fn face_range(mesh: MaterialMesh, axis: Axis, f: int) -> FaceRange {
    let p = (mesh.corner(3 * f), mesh.corner(3 * f + 1), mesh.corner(3 * f + 2));
    FaceRange {
        min: least(axis.coord(p.0), axis.coord(p.1), axis.coord(p.2)),
        max: greatest(axis.coord(p.0), axis.coord(p.1), axis.coord(p.2)),
        area: doubled_area(axis, p) as i128,
    }
}

/// The ranges of the first `k` faces.
pub open spec fn face_ranges(mesh: MaterialMesh, axis: Axis, k: nat) -> Seq<FaceRange>
    decreases k,
{
    if k == 0 {
        Seq::empty()
    } else {
        face_ranges(mesh, axis, (k - 1) as nat).push(face_range(mesh, axis, k - 1))
    }
}

/// `s`, in rising order of `min`, with `r` put behind every range that
/// does not start after it.
pub open spec fn insert_range(s: Seq<FaceRange>, r: FaceRange) -> Seq<FaceRange>
    decreases s.len(),
{
    if s.len() == 0 {
        seq![r]
    } else if r.min < s.last().min {
        insert_range(s.drop_last(), r).push(s.last())
    } else {
        s.push(r)
    }
}

/// The ranges in rising order of `min`; ranges that start alike keep their
/// order.
pub open spec fn by_min(s: Seq<FaceRange>) -> Seq<FaceRange>
    decreases s.len(),
{
    if s.len() == 0 {
        s
    } else {
        insert_range(by_min(s.drop_last()), s.last())
    }
}

/// The stretches that the ranges cover, in the order of the ranges: a
/// range that starts beyond the end of the last stretch opens a new one,
/// any other makes the last stretch reach as far as itself and adds its
/// area to it.
pub open spec fn merged(s: Seq<FaceRange>) -> Seq<FaceRange>
    decreases s.len(),
{
    if s.len() == 0 {
        s
    } else {
        let before = merged(s.drop_last());
        let r = s.last();
        if before.len() == 0 || r.min > before.last().max {
            before.push(r)
        } else {
            before.update(
                before.len() - 1,
                FaceRange {
                    min: before.last().min,
                    max: if r.max > before.last().max {
                        r.max
                    } else {
                        before.last().max
                    },
                    area: (before.last().area + r.area) as i128,
                },
            )
        }
    }
}

/// The sum of the areas.
pub open spec fn total_area(s: Seq<FaceRange>) -> int
    decreases s.len(),
{
    if s.len() == 0 {
        0
    } else {
        total_area(s.drop_last()) + s.last().area
    }
}

pub open spec fn clamped(g: int) -> i32 {
    if g > i32::MAX {
        i32::MAX
    } else if g < i32::MIN {
        i32::MIN
    } else {
        g as i32
    }
}

/// The in-out gradient of a stretch with the doubled area `area`, for cells
/// of the cross section `cell`: the area in cross sections, rounded. It is
/// -1 where the mesh is entered along the axis, 1 where it is left, and 0
/// where nothing changes.
pub open spec fn gradient(area: int, cell: int) -> i32 {
    clamped(rounded(area, 2 * cell))
}

/// The stretches of the axis that the mesh covers, as `axis_ranges_and_in_out_gradients`
/// returns them.
pub open spec fn interval_at(stretches: Seq<FaceRange>, cell: int, k: int) -> (i64, i64, i32) {
    (stretches[k].min, stretches[k].max, gradient(stretches[k].area as int, cell))
}

/// Every area is at most `bound` in magnitude.
pub open spec fn areas_within(s: Seq<FaceRange>, bound: int) -> bool {
    forall|k: int| 0 <= k < s.len() ==> -bound <= (#[trigger] s[k]).area <= bound
}

/// Largest doubled area of the projection of one face.
pub const FACE_AREA_MAX: i128 = 8_000_000_000_000_000_000;

fn range_of(axis: Axis, p: (Point3, Point3, Point3)) -> (r: FaceRange)
    requires
        point3_ok(p.0),
        point3_ok(p.1),
        point3_ok(p.2),
    ensures
        r.min == least(axis.coord(p.0), axis.coord(p.1), axis.coord(p.2)),
        r.max == greatest(axis.coord(p.0), axis.coord(p.1), axis.coord(p.2)),
        r.area == doubled_area(axis, p),
        -FACE_AREA_MAX <= r.area <= FACE_AREA_MAX,
{
    let a = axis.along(p.0);
    let b = axis.along(p.1);
    let c = axis.along(p.2);
    let min = if a <= b && a <= c {
        a
    } else if b <= c {
        b
    } else {
        c
    };
    let max = if a >= b && a >= c {
        a
    } else if b >= c {
        b
    } else {
        c
    };
    let ax: i128 = (p.1.0 - p.0.0) as i128;
    let ay: i128 = (p.1.1 - p.0.1) as i128;
    let az: i128 = (p.1.2 - p.0.2) as i128;
    let bx: i128 = (p.2.0 - p.0.0) as i128;
    let by: i128 = (p.2.1 - p.0.1) as i128;
    let bz: i128 = (p.2.2 - p.0.2) as i128;
    let (u1, v1, u2, v2) = match axis {
        Axis::X => (ay, bz, az, by),
        Axis::Y => (az, bx, ax, bz),
        Axis::Z => (ax, by, ay, bx),
    };
    proof {
        assert(-4_000_000_000_000_000_000 <= u1 * v1 <= 4_000_000_000_000_000_000)
            by (nonlinear_arith)
            requires
                -2_000_000_000 <= u1 <= 2_000_000_000,
                -2_000_000_000 <= v1 <= 2_000_000_000,
        ;
        assert(-4_000_000_000_000_000_000 <= u2 * v2 <= 4_000_000_000_000_000_000)
            by (nonlinear_arith)
            requires
                -2_000_000_000 <= u2 <= 2_000_000_000,
                -2_000_000_000 <= v2 <= 2_000_000_000,
        ;
    }
    FaceRange { min, max, area: u1 * v1 - u2 * v2 }
}

fn insert_by_min(v: &mut Vec<FaceRange>, r: FaceRange, Ghost(bound): Ghost<int>)
    requires
        areas_within(old(v)@, bound),
        -bound <= r.area <= bound,
    ensures
        final(v)@ == insert_range(old(v)@, r),
        final(v).len() == old(v).len() + 1,
        areas_within(final(v)@, bound),
    decreases old(v).len(),
{
    if v.len() == 0 {
        v.push(r);
        return ;
    }
    let last = v[v.len() - 1];
    if r.min < last.min {
        let ghost before = v@;
        v.pop();
        assert(v@ == before.drop_last());
        insert_by_min(v, r, Ghost(bound));
        v.push(last);
    } else {
        v.push(r);
    }
}

fn round_gradient(area: i128, cell: i64) -> (g: i32)
    requires
        cell > 0,
        -40_000_000_000_000_000_000_000_000_000 <= area <= 40_000_000_000_000_000_000_000_000_000,
    ensures
        g == gradient(area as int, cell as int),
{
    let d: i128 = 2 * (cell as i128);
    let twice: i128 = 2 * area;
    let q: i128 = if area >= 0 {
        (twice + d) / (2 * d)
    } else {
        let up: i128 = (d - twice) / (2 * d);
        assert(0 <= up <= d - twice) by (nonlinear_arith)
            requires
                up == (d - twice) / (2 * d),
                d > 0,
                d - twice >= 0,
        ;
        -up
    };
    if q > i32::MAX as i128 {
        i32::MAX
    } else if q < i32::MIN as i128 {
        i32::MIN
    } else {
        q as i32
    }
}

/// The stretches that the ranges cover.
fn merge_ranges(sorted: &Vec<FaceRange>) -> (out: Vec<FaceRange>)
    requires
        sorted.len() <= FACES_MAX,
        areas_within(sorted@, FACE_AREA_MAX as int),
    ensures
        out@ == merged(sorted@),
        areas_within(out@, sorted.len() * FACE_AREA_MAX),
{
    let mut out: Vec<FaceRange> = Vec::new();
    let mut i: usize = 0;
    assert(sorted@.take(0) =~= Seq::<FaceRange>::empty());
    while i < sorted.len()
        invariant
            0 <= i <= sorted.len(),
            sorted.len() <= FACES_MAX,
            areas_within(sorted@, FACE_AREA_MAX as int),
            out@ == merged(sorted@.take(i as int)),
            areas_within(out@, i * FACE_AREA_MAX),
        decreases sorted.len() - i,
    {
        proof {
            assert(sorted@.take(i + 1).drop_last() =~= sorted@.take(i as int));
            assert(sorted@.take(i + 1).last() == sorted[i as int]);
            assert(i * FACE_AREA_MAX + FACE_AREA_MAX == (i + 1) * FACE_AREA_MAX)
                by (nonlinear_arith);
            assert(0 <= i * FACE_AREA_MAX <= FACES_MAX * FACE_AREA_MAX) by (nonlinear_arith)
                requires
                    0 <= i <= FACES_MAX,
            ;
        }
        let r = sorted[i];
        let count = out.len();
        if count == 0 || r.min > out[count - 1].max {
            out.push(r);
        } else {
            let last = out[count - 1];
            let max = if r.max > last.max {
                r.max
            } else {
                last.max
            };
            out.set(count - 1, FaceRange { min: last.min, max, area: last.area + r.area });
        }
        i += 1;
    }
    proof {
        assert(sorted@.take(sorted.len() as int) =~= sorted@);
    }
    out
}

impl MaterialMesh {
    /// The stretches of the axis that the faces of the mesh cover, from the
    /// lowest on, each with its in-out gradient for cells whose cross
    /// section across the axis has the area `cross_section_area`, which is
    /// positive: the faces in rising order of their least coordinate are
    /// merged into stretches, and the gradient of a stretch is its net
    /// projected area in cross sections, rounded.
    pub fn axis_ranges_and_in_out_gradients(&self, axis: Axis, cross_section_area: i64) -> (r: Vec<
        (i64, i64, i32),
    >)
        requires
            cross_section_area > 0,
        ensures
            r.len() == merged(by_min(face_ranges(*self, axis, self.tags().len()))).len(),
            forall|k: int|
                0 <= k < r.len() ==> #[trigger] r[k] == interval_at(
                    merged(by_min(face_ranges(*self, axis, self.tags().len()))),
                    cross_section_area as int,
                    k,
                ),
    {
        let n = self.num_faces();
        let mut sorted: Vec<FaceRange> = Vec::new();
        let mut f: usize = 0;
        while f < n
            invariant
                0 <= f <= n,
                n == self.tags().len(),
                sorted@ == by_min(face_ranges(*self, axis, f as nat)),
                sorted.len() == f,
                areas_within(sorted@, FACE_AREA_MAX as int),
            decreases n - f,
        {
            let range = range_of(axis, self.face_positions(f));
            proof {
                let before = face_ranges(*self, axis, f as nat);
                assert(range == face_range(*self, axis, f as int));
                assert(before.push(range).drop_last() =~= before);
            }
            insert_by_min(&mut sorted, range, Ghost(FACE_AREA_MAX as int));
            f += 1;
        }
        let stretches = merge_ranges(&sorted);
        let mut r: Vec<(i64, i64, i32)> = Vec::new();
        let mut k: usize = 0;
        proof {
            assert(0 <= sorted.len() * FACE_AREA_MAX <= FACES_MAX * FACE_AREA_MAX)
                by (nonlinear_arith)
                requires
                    0 <= sorted.len() <= FACES_MAX,
            ;
        }
        while k < stretches.len()
            invariant
                0 <= k <= stretches.len(),
                cross_section_area > 0,
                r.len() == k,
                areas_within(stretches@, FACES_MAX * FACE_AREA_MAX),
                forall|j: int|
                    0 <= j < k ==> #[trigger] r[j] == interval_at(
                        stretches@,
                        cross_section_area as int,
                        j,
                    ),
            decreases stretches.len() - k,
        {
            let s = stretches[k];
            r.push((s.min, s.max, round_gradient(s.area, cross_section_area)));
            k += 1;
        }
        r
    }
}

/// Putting a range in its place adds its area to the sum.
proof fn lemma_insert_keeps_area(s: Seq<FaceRange>, r: FaceRange, bound: int)
    requires
        areas_within(s, bound),
        -bound <= r.area <= bound,
    ensures
        total_area(insert_range(s, r)) == total_area(s) + r.area,
        areas_within(insert_range(s, r), bound),
        insert_range(s, r).len() == s.len() + 1,
    decreases s.len(),
{
    if s.len() == 0 {
        assert(seq![r].drop_last() =~= Seq::<FaceRange>::empty());
        assert(seq![r].last() == r);
        assert(total_area(seq![r]) == total_area(seq![r].drop_last()) + r.area);
    } else if r.min < s.last().min {
        let head = s.drop_last();
        assert forall|k: int| 0 <= k < head.len() implies -bound <= (#[trigger] head[k]).area
            <= bound by {
            assert(head[k] == s[k]);
        }
        lemma_insert_keeps_area(head, r, bound);
        let placed = insert_range(head, r);
        let all = placed.push(s.last());
        assert(all.drop_last() =~= placed);
        assert(all.last() == s.last());
        assert(total_area(all) == total_area(placed) + s.last().area);
        assert(total_area(s) == total_area(head) + s.last().area);
    } else {
        let all = s.push(r);
        assert(all.drop_last() =~= s);
        assert(all.last() == r);
        assert(total_area(all) == total_area(s) + r.area);
    }
}

/// Ordering the ranges keeps the sum of their areas.
proof fn lemma_order_keeps_area(s: Seq<FaceRange>, bound: int)
    requires
        areas_within(s, bound),
    ensures
        total_area(by_min(s)) == total_area(s),
        areas_within(by_min(s), bound),
        by_min(s).len() == s.len(),
    decreases s.len(),
{
    if s.len() > 0 {
        let head = s.drop_last();
        assert forall|k: int| 0 <= k < head.len() implies -bound <= (#[trigger] head[k]).area
            <= bound by {
            assert(head[k] == s[k]);
        }
        lemma_order_keeps_area(head, bound);
        lemma_insert_keeps_area(by_min(head), s.last(), bound);
    }
}

/// Merging the ranges keeps the sum of their areas.
proof fn lemma_merge_keeps_area(s: Seq<FaceRange>)
    requires
        s.len() <= FACES_MAX,
        areas_within(s, FACE_AREA_MAX as int),
    ensures
        total_area(merged(s)) == total_area(s),
        areas_within(merged(s), s.len() * FACE_AREA_MAX),
        -(s.len() * FACE_AREA_MAX) <= total_area(s) <= s.len() * FACE_AREA_MAX,
    decreases s.len(),
{
    if s.len() > 0 {
        let head = s.drop_last();
        assert forall|k: int| 0 <= k < head.len() implies -FACE_AREA_MAX <= (
        #[trigger] head[k]).area <= FACE_AREA_MAX by {
            assert(head[k] == s[k]);
        }
        lemma_merge_keeps_area(head);
        let before = merged(head);
        let r = s.last();
        assert(head.len() * FACE_AREA_MAX + FACE_AREA_MAX == s.len() * FACE_AREA_MAX)
            by (nonlinear_arith)
            requires
                head.len() + 1 == s.len(),
        ;
        assert(0 <= head.len() * FACE_AREA_MAX <= FACES_MAX * FACE_AREA_MAX) by (nonlinear_arith)
            requires
                0 <= head.len() <= FACES_MAX,
        ;
        if before.len() == 0 || r.min > before.last().max {
            let all = before.push(r);
            assert(all.drop_last() =~= before);
            assert(all.last() == r);
            assert(total_area(all) == total_area(before) + r.area);
        } else {
            let last = before.last();
            let joined = FaceRange {
                min: last.min,
                max: if r.max > last.max {
                    r.max
                } else {
                    last.max
                },
                area: (last.area + r.area) as i128,
            };
            let after = before.update(before.len() - 1, joined);
            assert(after.drop_last() =~= before.drop_last());
            assert(after.last() == joined);
            assert(total_area(after) == total_area(before.drop_last()) + joined.area);
            assert(total_area(before) == total_area(before.drop_last()) + last.area);
        }
    }
}

/// The net projected areas of the stretches of an axis add up to the net
/// projected area of all faces: no face is lost between the stretches,
/// and none is counted twice.
pub proof fn lemma_stretches_keep_area(ranges: Seq<FaceRange>)
    requires
        ranges.len() <= FACES_MAX,
        areas_within(ranges, FACE_AREA_MAX as int),
    ensures
        total_area(merged(by_min(ranges))) == total_area(ranges),
{
    lemma_order_keeps_area(ranges, FACE_AREA_MAX as int);
    lemma_merge_keeps_area(by_min(ranges));
}

} // verus!
