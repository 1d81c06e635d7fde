//! Contouring a mesh along an axis: the sweep over the slice planes that
//! says which edges each plane cuts, and where an edge is cut.
//!
//! The mesh itself is not held here. The sweep hands out the edges that a
//! plane meets; whoever holds the mesh cuts them as `split_plan` says and
//! hands the pieces above the plane back.

use crate::lattice::coord_ok;
use crate::lattice::point3_ok;
use crate::lattice::rounded;
use crate::lattice::Point3;
use crate::lattice::COORD_MAX;
use crate::lattice::EPSILON;
use crate::material_mesh::Axis;
use vstd::prelude::*;

verus! {

/// The stretch of the axis that an edge covers, from its lower end `min`
/// to its upper end `max`, with the half-edge that runs up the axis.
#[derive(Clone, Copy, Debug, PartialEq, Eq)]
pub struct EdgeRange {
    pub min: i64,
    pub max: i64,
    pub halfedge: u32,
    /// The edge was made when a face next to a cut was divided.
    pub triangulation: bool,
}

impl EdgeRange {
    /// Both ends lie within the range of coordinates.
    pub open spec fn in_range(self) -> bool {
        coord_ok(self.min) && coord_ok(self.max)
    }

    /// Both ends lie within the range of the planes of a sweep.
    pub open spec fn in_reach(self) -> bool {
        -2 * COORD_MAX <= self.min <= 2 * COORD_MAX && -2 * COORD_MAX <= self.max <= 2 * COORD_MAX
    }

    /// The plane at `slice` has reached the lower end of the edge.
    pub open spec fn reached_by(self, slice: int) -> bool {
        self.min - EPSILON < slice
    }

    /// The plane at `slice` lies below the upper end of the edge, or at it.
    pub open spec fn reaches(self, slice: int) -> bool {
        self.max + EPSILON > slice
    }
}

/// The range of an edge whose half-edge `halfedge` runs from the
/// coordinate `from` to the coordinate `to`, and whose other half-edge is
/// `twin`: the half-edge that runs up the axis, from the lower end.
pub fn orient_edge(from: i64, to: i64, halfedge: u32, twin: u32) -> (range: EdgeRange)
    ensures
        !range.triangulation,
        from > to ==> range.min == to && range.max == from && range.halfedge == twin,
        from <= to ==> range.min == from && range.max == to && range.halfedge == halfedge,
{
    if from > to {
        EdgeRange { min: to, max: from, halfedge: twin, triangulation: false }
    } else {
        EdgeRange { min: from, max: to, halfedge, triangulation: false }
    }
}

/// `s`, in falling order of `min`, with `r` put before every range that
/// does not start above it.
pub open spec fn insert_falling(s: Seq<EdgeRange>, r: EdgeRange) -> Seq<EdgeRange>
    decreases s.len(),
{
    if s.len() == 0 {
        seq![r]
    } else if s.last().min <= r.min {
        insert_falling(s.drop_last(), r).push(s.last())
    } else {
        s.push(r)
    }
}

/// The ranges in falling order of `min`; of ranges that start alike the
/// later comes first.
pub open spec fn falling(s: Seq<EdgeRange>) -> Seq<EdgeRange>
    decreases s.len(),
{
    if s.len() == 0 {
        s
    } else {
        insert_falling(falling(s.drop_last()), s.last())
    }
}

/// What a plane does to the queue of ranges.
pub ghost struct Popped {
    /// The ranges still waiting.
    pub rest: Seq<EdgeRange>,
    /// The edges that the plane cuts.
    pub edges: Seq<EdgeRange>,
    /// The triangulation edges that the plane meets.
    pub tri_edges: Seq<EdgeRange>,
}

/// Takes ranges from the end of the queue as long as the plane has reached
/// the last one. A range that the plane lies beyond is dropped; the others
/// are met by the plane and kept, triangulation edges apart from the rest,
/// each kind in the order in which they were taken.
pub open spec fn popped(ranges: Seq<EdgeRange>, slice: int) -> Popped
    decreases ranges.len(),
{
    if ranges.len() == 0 || !ranges.last().reached_by(slice) {
        Popped { rest: ranges, edges: Seq::empty(), tri_edges: Seq::empty() }
    } else {
        let r = ranges.last();
        let after = popped(ranges.drop_last(), slice);
        if !r.reaches(slice) {
            after
        } else if r.triangulation {
            Popped { tri_edges: seq![r] + after.tri_edges, ..after }
        } else {
            Popped { edges: seq![r] + after.edges, ..after }
        }
    }
}

/// A piece of an edge above the plane that cut it: the half-edge that runs
/// up from the plane, and the coordinate of its upper end.
#[derive(Clone, Copy, Debug, PartialEq, Eq)]
pub struct Fragment {
    pub halfedge: u32,
    pub max: i64,
}

/// The ranges of the pieces that one cut leaves above the plane at
/// `slice`: the first is the upper part of the edge that was cut, the
/// others are triangulation edges.
pub open spec fn fragment_ranges(pieces: Seq<Fragment>, slice: i64) -> Seq<EdgeRange> {
    Seq::new(
        pieces.len(),
        |i: int|
            EdgeRange {
                min: slice,
                max: pieces[i].max,
                halfedge: pieces[i].halfedge,
                triangulation: i != 0,
            },
    )
}

/// The next plane after the plane at `slice`.
pub open spec fn plane_after(slice: i64, spacing: i64) -> i64 {
    if slice + spacing > 2 * COORD_MAX {
        (2 * COORD_MAX) as i64
    } else {
        (slice + spacing) as i64
    }
}

/// The sweep of the slice planes up the axis.
pub struct ContourSweep {
    ranges: Vec<EdgeRange>,
    slice_coord: i64,
    spacing: i64,
}

/// What the plane at `slice_coord` meets.
#[derive(Debug)]
pub struct PlaneStep {
    pub slice_coord: i64,
    /// The edges to cut, in order.
    pub edges: Vec<EdgeRange>,
    /// The triangulation edges to flip once the edges are cut.
    pub tri_edges: Vec<EdgeRange>,
}

pub open spec fn all_in_range(ranges: Seq<EdgeRange>) -> bool {
    forall|k: int| 0 <= k < ranges.len() ==> (#[trigger] ranges[k]).in_range()
}

pub open spec fn all_in_reach(ranges: Seq<EdgeRange>) -> bool {
    forall|k: int| 0 <= k < ranges.len() ==> (#[trigger] ranges[k]).in_reach()
}

/// The plane at `slice` meets every one of the ranges, and all are
/// triangulation edges or none is, as `triangulation` says.
pub open spec fn all_met(ranges: Seq<EdgeRange>, slice: int, triangulation: bool) -> bool {
    forall|k: int|
        0 <= k < ranges.len() ==> {
            &&& (#[trigger] ranges[k]).in_reach()
            &&& ranges[k].reached_by(slice)
            &&& ranges[k].reaches(slice)
            &&& ranges[k].triangulation == triangulation
        }
}

impl ContourSweep {
    #[verifier::type_invariant]
    spec fn valid(self) -> bool {
        &&& 0 < self.spacing <= COORD_MAX
        &&& -2 * COORD_MAX <= self.slice_coord <= 2 * COORD_MAX
        &&& all_in_reach(self.ranges@)
    }

    /// The ranges that wait for a plane, the next to be reached last.
    pub closed spec fn ranges(self) -> Seq<EdgeRange> {
        self.ranges@
    }

    /// The coordinate of the plane that comes next.
    pub closed spec fn slice_coord(self) -> i64 {
        self.slice_coord
    }

    /// The distance between two planes.
    pub closed spec fn spacing(self) -> i64 {
        self.spacing
    }

    /// A sweep over the given edges with planes at `min_slice + spacing`,
    /// `min_slice + 2 * spacing` and so on; nothing where `spacing` is not
    /// positive or a coordinate is out of range.
    pub fn new(edges: &Vec<EdgeRange>, spacing: i64, min_slice: i64) -> (sweep: Option<Self>)
        ensures
            sweep is Some <==> 0 < spacing <= COORD_MAX && coord_ok(min_slice) && all_in_range(
                edges@,
            ),
            sweep is Some ==> sweep->0.ranges() == falling(edges@) && sweep->0.slice_coord()
                == min_slice + spacing && sweep->0.spacing() == spacing,
    {
        if spacing <= 0 || spacing > COORD_MAX || min_slice < -COORD_MAX || min_slice > COORD_MAX {
            return None;
        }
        let mut ranges: Vec<EdgeRange> = Vec::new();
        let mut i: usize = 0;
        assert(edges@.take(0) =~= Seq::<EdgeRange>::empty());
        while i < edges.len()
            invariant
                0 <= i <= edges.len(),
                ranges@ == falling(edges@.take(i as int)),
                all_in_reach(ranges@),
                forall|k: int| 0 <= k < i ==> (#[trigger] edges[k]).in_range(),
            decreases edges.len() - i,
        {
            let r = edges[i];
            if r.min < -COORD_MAX || r.min > COORD_MAX || r.max < -COORD_MAX || r.max > COORD_MAX {
                assert(!edges[i as int].in_range());
                return None;
            }
            proof {
                assert(edges@.take(i + 1).drop_last() =~= edges@.take(i as int));
                assert(edges@.take(i + 1).last() == r);
            }
            insert_range(&mut ranges, r);
            i += 1;
        }
        proof {
            assert(edges@.take(edges.len() as int) =~= edges@);
        }
        Some(ContourSweep { ranges, slice_coord: min_slice + spacing, spacing })
    }

    /// The coordinate of the plane that comes next.
    pub fn current_plane(&self) -> (slice: i64)
        ensures
            slice == self.slice_coord(),
    {
        self.slice_coord
    }

    /// Whether no range waits any more: the sweep is over.
    pub fn is_done(&self) -> (r: bool)
        ensures
            r == (self.ranges().len() == 0),
    {
        self.ranges.len() == 0
    }

    /// What the next plane meets, or nothing when the sweep is over. The
    /// ranges that the plane has reached leave the queue.
    pub fn begin_plane(&mut self) -> (step: Option<PlaneStep>)
        ensures
            final(self).spacing() == old(self).spacing(),
            final(self).slice_coord() == old(self).slice_coord(),
            old(self).ranges().len() == 0 ==> step is None && final(self).ranges() == old(self).ranges(),
            old(self).ranges().len() > 0 ==> step is Some && step->0.slice_coord == old(self).slice_coord() && final(self).ranges() == popped(
                old(self).ranges(),
                old(self).slice_coord() as int,
            ).rest && step->0.edges@ == popped(
                old(self).ranges(),
                old(self).slice_coord() as int,
            ).edges && step->0.tri_edges@ == popped(
                old(self).ranges(),
                old(self).slice_coord() as int,
            ).tri_edges,
            step is Some ==> all_met(step->0.edges@, step->0.slice_coord as int, false) && all_met(
                step->0.tri_edges@,
                step->0.slice_coord as int,
                true,
            ) && -2 * COORD_MAX <= step->0.slice_coord <= 2 * COORD_MAX,
    {
        proof {
            use_type_invariant(&*self);
        }
        if self.ranges.len() == 0 {
            return None;
        }
        let slice = self.slice_coord;
        let mut edges: Vec<EdgeRange> = Vec::new();
        let mut tri_edges: Vec<EdgeRange> = Vec::new();
        let mut rest: Vec<EdgeRange> = crate::seqs::copy_of(&self.ranges);
        let ghost whole = self.ranges@;
        assert(edges@ + popped(rest@, slice as int).edges =~= popped(whole, slice as int).edges);
        assert(tri_edges@ + popped(rest@, slice as int).tri_edges =~= popped(
            whole,
            slice as int,
        ).tri_edges);
        loop
            invariant
                -2 * COORD_MAX <= slice <= 2 * COORD_MAX,
                all_in_reach(rest@),
                all_met(edges@, slice as int, false),
                all_met(tri_edges@, slice as int, true),
                popped(rest@, slice as int).rest == popped(whole, slice as int).rest,
                edges@ + popped(rest@, slice as int).edges == popped(whole, slice as int).edges,
                tri_edges@ + popped(rest@, slice as int).tri_edges == popped(
                    whole,
                    slice as int,
                ).tri_edges,
            ensures
                rest@ == popped(whole, slice as int).rest,
                edges@ == popped(whole, slice as int).edges,
                tri_edges@ == popped(whole, slice as int).tri_edges,
                all_in_reach(rest@),
                all_met(edges@, slice as int, false),
                all_met(tri_edges@, slice as int, true),
            decreases rest.len(),
        {
            if rest.len() == 0 || rest[rest.len() - 1].min - EPSILON >= slice {
                proof {
                    assert(edges@ + Seq::<EdgeRange>::empty() =~= edges@);
                    assert(tri_edges@ + Seq::<EdgeRange>::empty() =~= tri_edges@);
                }
                break ;
            }
            let ghost before = rest@;
            let ghost after = popped(before.drop_last(), slice as int);
            let r = rest[rest.len() - 1];
            rest.pop();
            assert(rest@ == before.drop_last());
            if r.max + EPSILON > slice {
                if r.triangulation {
                    let ghost had = tri_edges@;
                    tri_edges.push(r);
                    assert(had.push(r) + after.tri_edges =~= had + (seq![r] + after.tri_edges));
                } else {
                    let ghost had = edges@;
                    edges.push(r);
                    assert(had.push(r) + after.edges =~= had + (seq![r] + after.edges));
                }
            }
        }
        self.ranges = rest;
        Some(PlaneStep { slice_coord: slice, edges, tri_edges })
    }

    /// Puts the pieces that one cut left above the plane into the queue,
    /// the first as a piece of the edge that was cut and the others as
    /// triangulation edges. Every piece ends above the plane.
    pub fn push_fragments(&mut self, pieces: &Vec<Fragment>)
        requires
            forall|i: int|
                0 <= i < pieces.len() ==> old(self).slice_coord() < (#[trigger] pieces[i]).max
                    <= COORD_MAX,
        ensures
            final(self).spacing() == old(self).spacing(),
            final(self).slice_coord() == old(self).slice_coord(),
            final(self).ranges() == old(self).ranges() + fragment_ranges(
                pieces@,
                old(self).slice_coord(),
            ),
    {
        proof {
            use_type_invariant(&*self);
        }
        let slice = self.slice_coord;
        let mut ranges: Vec<EdgeRange> = crate::seqs::copy_of(&self.ranges);
        let ghost had = self.ranges@;
        let ghost added = fragment_ranges(pieces@, slice);
        let mut i: usize = 0;
        assert(had + added.take(0) =~= had);
        while i < pieces.len()
            invariant
                0 <= i <= pieces.len(),
                -2 * COORD_MAX <= slice <= 2 * COORD_MAX,
                added == fragment_ranges(pieces@, slice),
                forall|k: int| 0 <= k < pieces.len() ==> slice < (#[trigger] pieces[k]).max <= COORD_MAX,
                all_in_reach(had),
                ranges@ == had + added.take(i as int),
                all_in_reach(ranges@),
            decreases pieces.len() - i,
        {
            let piece = pieces[i];
            let r = EdgeRange {
                min: slice,
                max: piece.max,
                halfedge: piece.halfedge,
                triangulation: i != 0,
            };
            ranges.push(r);
            proof {
                assert(added[i as int] == r);
                assert(added.take(i + 1) =~= added.take(i as int).push(r));
                assert(had + added.take(i + 1) =~= (had + added.take(i as int)).push(r));
            }
            i += 1;
        }
        proof {
            assert(added.take(pieces.len() as int) =~= added);
        }
        self.ranges = ranges;
    }

    /// Goes on to the next plane.
    pub fn advance(&mut self)
        ensures
            final(self).spacing() == old(self).spacing(),
            final(self).ranges() == old(self).ranges(),
            final(self).slice_coord() == plane_after(old(self).slice_coord(), old(self).spacing()),
    {
        proof {
            use_type_invariant(&*self);
        }
        if self.slice_coord + self.spacing > 2 * COORD_MAX {
            self.slice_coord = 2 * COORD_MAX;
        } else {
            self.slice_coord = self.slice_coord + self.spacing;
        }
    }
}

fn insert_range(v: &mut Vec<EdgeRange>, r: EdgeRange)
    requires
        all_in_reach(old(v)@),
        r.in_reach(),
    ensures
        final(v)@ == insert_falling(old(v)@, r),
        all_in_reach(final(v)@),
    decreases old(v).len(),
{
    if v.len() == 0 {
        v.push(r);
        return ;
    }
    let last = v[v.len() - 1];
    if last.min <= r.min {
        let ghost before = v@;
        v.pop();
        assert(v@ == before.drop_last());
        insert_range(v, r);
        v.push(last);
    } else {
        v.push(r);
    }
}

/// What is to be done with an edge that a plane meets.
#[derive(Clone, Copy, Debug, PartialEq, Eq)]
pub enum SplitAction {
    /// The upper end lies on the plane: nothing of the edge is above it.
    Drop,
    /// The lower end lies on the plane: the edge waits for the next plane.
    Keep,
    /// The edge is cut at the point, which lies on the plane.
    Cut(Point3),
}

/// What is to be done with an edge that a plane meets, and where its ends
/// go before that.
#[derive(Clone, Copy, Debug)]
pub struct SplitPlan {
    /// Where the lower end moves, if it is less than `EPSILON` from the plane.
    pub snap_lower: Option<Point3>,
    /// Where the upper end moves, if it is less than `EPSILON` from the plane.
    pub snap_upper: Option<Point3>,
    pub action: SplitAction,
}

/// `value` is less than `EPSILON` from `slice`.
pub open spec fn near(value: i64, slice: i64) -> bool {
    -EPSILON < slice - value < EPSILON
}

/// The coordinate between `from` and `to` at the plane, for an edge whose
/// ends lie at `min` and `max` along the axis: as far along from `from` to
/// `to` as the plane lies from `min` to `max`, rounded to the lattice.
pub open spec fn between(from: i64, to: i64, slice: i64, min: i64, max: i64) -> int {
    from + rounded((to - from) * (slice - min), max - min)
}

/// The point at which the edge from `lower` to `upper` is cut: on the
/// plane, and between the ends in the other two directions.
pub open spec fn cut_point(axis: Axis, slice: i64, range: EdgeRange, lower: Point3, upper: Point3) -> (
    int,
    int,
    int,
) {
    (
        if axis == Axis::X {
            slice as int
        } else {
            between(lower.0, upper.0, slice, range.min, range.max)
        },
        if axis == Axis::Y {
            slice as int
        } else {
            between(lower.1, upper.1, slice, range.min, range.max)
        },
        if axis == Axis::Z {
            slice as int
        } else {
            between(lower.2, upper.2, slice, range.min, range.max)
        },
    )
}

/// The end of an edge after the plane has drawn it in: on the plane where
/// its coordinate in the range was near the plane, else where it was.
pub open spec fn drawn_in(axis: Axis, slice: i64, value: i64, at: Point3) -> Point3 {
    if near(value, slice) {
        axis.replaced(at, slice)
    } else {
        at
    }
}

/// `cut_point` as a lattice point.
pub open spec fn cut_at(axis: Axis, slice: i64, range: EdgeRange, lower: Point3, upper: Point3) -> Point3 {
    (
        cut_point(axis, slice, range, lower, upper).0 as i64,
        cut_point(axis, slice, range, lower, upper).1 as i64,
        cut_point(axis, slice, range, lower, upper).2 as i64,
    )
}

/// What is to be done with an edge that the plane at `slice` meets, once
/// its ends are drawn in: it is dropped where its upper end lies on the
/// plane, kept for the next plane where only its lower end does, and cut
/// where neither does.
pub open spec fn planned(axis: Axis, slice: i64, range: EdgeRange, lower: Point3, upper: Point3) -> SplitAction {
    if axis.coord(drawn_in(axis, slice, range.max, upper)) == slice {
        SplitAction::Drop
    } else if axis.coord(drawn_in(axis, slice, range.min, lower)) == slice {
        SplitAction::Keep
    } else {
        SplitAction::Cut(cut_at(axis, slice, range, lower, upper))
    }
}

/// An edge with an end on the plane is not cut.
pub proof fn lemma_end_on_plane_is_not_cut(
    axis: Axis,
    slice: i64,
    range: EdgeRange,
    lower: Point3,
    upper: Point3,
)
    requires
        axis.coord(lower) == slice || axis.coord(upper) == slice,
    ensures
        !(planned(axis, slice, range, lower, upper) is Cut),
{
}

/// An edge that runs from `range.min` to `range.max` and has an end less
/// than `EPSILON` from the plane is not cut, and no end of it moves
/// further than `EPSILON`: contouring a contoured mesh again leaves it as
/// it is.
pub proof fn lemma_contoured_edge_is_left(
    axis: Axis,
    slice: i64,
    range: EdgeRange,
    lower: Point3,
    upper: Point3,
)
    requires
        axis.coord(lower) == range.min,
        axis.coord(upper) == range.max,
        near(range.min, slice) || near(range.max, slice),
    ensures
        !(planned(axis, slice, range, lower, upper) is Cut),
        -EPSILON < axis.coord(drawn_in(axis, slice, range.min, lower)) - axis.coord(lower)
            < EPSILON,
        -EPSILON < axis.coord(drawn_in(axis, slice, range.max, upper)) - axis.coord(upper)
            < EPSILON,
        drawn_in(axis, slice, range.min, lower) == axis.replaced(
            lower,
            axis.coord(drawn_in(axis, slice, range.min, lower)),
        ),
        drawn_in(axis, slice, range.max, upper) == axis.replaced(
            upper,
            axis.coord(drawn_in(axis, slice, range.max, upper)),
        ),
{
}

/// An edge that a plane meets and that does not reach `EPSILON` or more to
/// both sides of the plane has an end less than `EPSILON` from it.
pub proof fn lemma_met_edge_is_near(slice: i64, range: EdgeRange)
    requires
        range.reached_by(slice as int),
        range.reaches(slice as int),
        !(slice - range.min >= EPSILON && range.max - slice >= EPSILON),
    ensures
        near(range.min, slice) || near(range.max, slice),
{
}

/// Where an edge is cut, the new vertex lies on the plane: neither piece
/// of the edge crosses the plane.
pub proof fn lemma_cut_lies_on_plane(
    axis: Axis,
    slice: i64,
    range: EdgeRange,
    lower: Point3,
    upper: Point3,
)
    requires
        planned(axis, slice, range, lower, upper) is Cut,
    ensures
        axis.coord(planned(axis, slice, range, lower, upper)->Cut_0) == slice,
{
}

fn interpolate(from: i64, to: i64, slice: i64, min: i64, max: i64) -> (r: i64)
    requires
        coord_ok(from),
        coord_ok(to),
        min < slice < max,
        -2 * COORD_MAX <= min,
        max <= 2 * COORD_MAX,
    ensures
        r == between(from, to, slice, min, max),
        from <= to ==> from <= r <= to,
        to <= from ==> to <= r <= from,
{
    let n: i128 = (to - from) as i128;
    let a: i128 = (slice - min) as i128;
    let d: i128 = (max - min) as i128;
    proof {
        assert(n >= 0 ==> 0 <= n * a <= n * d) by (nonlinear_arith)
            requires
                0 < a < d,
        ;
        assert(n <= 0 ==> n * d <= n * a <= 0) by (nonlinear_arith)
            requires
                0 < a < d,
        ;
        assert(n < 0 ==> n * a < 0) by (nonlinear_arith)
            requires
                0 < a,
        ;
        assert(-1_000_000_000 * 2_000_000_000 <= n * d <= 1_000_000_000 * 2_000_000_000)
            by (nonlinear_arith)
            requires
                -1_000_000_000 <= n <= 1_000_000_000,
                0 < d <= 2_000_000_000,
        ;
    }
    let x: i128 = n * a;
    let twice: i128 = 2 * x;
    let q: i128 = if n >= 0 {
        let up: i128 = (twice + d) / (2 * d);
        assert(0 <= up <= n) by (nonlinear_arith)
            requires
                up == (twice + d) / (2 * d),
                twice == 2 * x,
                0 <= x <= n * d,
                d > 0,
        ;
        up
    } else {
        let up: i128 = (d - twice) / (2 * d);
        assert(0 <= up <= -n) by (nonlinear_arith)
            requires
                up == (d - twice) / (2 * d),
                twice == 2 * x,
                n * d <= x < 0,
                d > 0,
        ;
        -up
    };
    (from as i128 + q) as i64
}

/// What is to be done with an edge that the plane at `slice` meets: the
/// edge runs up the axis from `lower` to `upper`, and `range` holds the
/// coordinates of its ends as they were when it was put in the queue.
///
/// An end near the plane is drawn onto it. If then an end lies on the
/// plane the edge is not cut: it waits for the next plane if its upper end
/// is off the plane, and is dropped if not. Else it is cut where it
/// crosses the plane.
pub fn split_plan(axis: Axis, slice: i64, range: EdgeRange, lower: Point3, upper: Point3) -> (plan:
    SplitPlan)
    requires
        point3_ok(lower),
        point3_ok(upper),
        range.in_reach(),
        -2 * COORD_MAX <= slice <= 2 * COORD_MAX,
        range.reached_by(slice as int),
        range.reaches(slice as int),
    ensures
        plan.snap_lower == if near(range.min, slice) {
            Some(axis.replaced(lower, slice))
        } else {
            None::<Point3>
        },
        plan.snap_upper == if near(range.max, slice) {
            Some(axis.replaced(upper, slice))
        } else {
            None::<Point3>
        },
        plan.action == planned(axis, slice, range, lower, upper),
{
    let near_lower = slice - range.min < EPSILON && range.min - slice < EPSILON;
    let near_upper = slice - range.max < EPSILON && range.max - slice < EPSILON;
    let low = if near_lower {
        axis.replace(lower, slice)
    } else {
        lower
    };
    let high = if near_upper {
        axis.replace(upper, slice)
    } else {
        upper
    };
    let snap_lower = if near_lower {
        Some(low)
    } else {
        None
    };
    let snap_upper = if near_upper {
        Some(high)
    } else {
        None
    };
    let action = if axis.along(high) == slice {
        SplitAction::Drop
    } else if axis.along(low) == slice {
        SplitAction::Keep
    } else {
        let x = match axis {
            Axis::X => slice,
            _ => interpolate(lower.0, upper.0, slice, range.min, range.max),
        };
        let y = match axis {
            Axis::Y => slice,
            _ => interpolate(lower.1, upper.1, slice, range.min, range.max),
        };
        let z = match axis {
            Axis::Z => slice,
            _ => interpolate(lower.2, upper.2, slice, range.min, range.max),
        };
        SplitAction::Cut((x, y, z))
    };
    SplitPlan { snap_lower, snap_upper, action }
}

/// A half-edge at the vertex that a cut made, with the coordinates along
/// the axis of the vertex and of its other end.
#[derive(Clone, Copy, Debug, PartialEq, Eq)]
pub struct Spoke {
    pub halfedge: u32,
    pub from: i64,
    pub to: i64,
}

pub open spec fn runs_up() -> spec_fn(Spoke) -> bool {
    |s: Spoke| s.to > s.from
}

pub open spec fn is_halfedge(halfedge: u32) -> spec_fn(Spoke) -> bool {
    |s: Spoke| s.halfedge == halfedge
}

pub open spec fn is_other(halfedge: u32) -> spec_fn(Spoke) -> bool {
    |s: Spoke| s.halfedge != halfedge
}

pub open spec fn as_fragments(spokes: Seq<Spoke>) -> Seq<Fragment> {
    Seq::new(spokes.len(), |i: int| Fragment { halfedge: spokes[i].halfedge, max: spokes[i].to })
}

/// The pieces above the plane among the half-edges at the vertex that a
/// cut made: those that run up the axis, the upper part `split` of the
/// edge that was cut first.
pub fn upward_fragments(spokes: &Vec<Spoke>, split: u32) -> (pieces: Vec<Fragment>)
    ensures
        pieces@ == as_fragments(
            spokes@.filter(runs_up()).filter(is_halfedge(split)) + spokes@.filter(
                runs_up(),
            ).filter(is_other(split)),
        ),
{
    let mut mask: Vec<bool> = Vec::new();
    let mut i: usize = 0;
    while i < spokes.len()
        invariant
            0 <= i <= spokes.len(),
            mask.len() == i,
            forall|k: int| 0 <= k < i ==> mask[k] == runs_up()(#[trigger] spokes[k]),
        decreases spokes.len() - i,
    {
        mask.push(spokes[i].to > spokes[i].from);
        i += 1;
    }
    let ups = crate::seqs::keep_where(spokes, &mask, Ghost(runs_up()));
    let mut first_mask: Vec<bool> = Vec::new();
    let mut rest_mask: Vec<bool> = Vec::new();
    let mut i: usize = 0;
    while i < ups.len()
        invariant
            0 <= i <= ups.len(),
            first_mask.len() == i,
            rest_mask.len() == i,
            forall|k: int| 0 <= k < i ==> first_mask[k] == is_halfedge(split)(#[trigger] ups[k]),
            forall|k: int| 0 <= k < i ==> rest_mask[k] == is_other(split)(#[trigger] ups[k]),
        decreases ups.len() - i,
    {
        first_mask.push(ups[i].halfedge == split);
        rest_mask.push(ups[i].halfedge != split);
        i += 1;
    }
    let first = crate::seqs::keep_where(&ups, &first_mask, Ghost(is_halfedge(split)));
    let rest = crate::seqs::keep_where(&ups, &rest_mask, Ghost(is_other(split)));
    let ghost all = first@ + rest@;
    let mut pieces: Vec<Fragment> = Vec::new();
    let mut i: usize = 0;
    while i < first.len()
        invariant
            0 <= i <= first.len(),
            all == first@ + rest@,
            pieces@ == as_fragments(all).take(i as int),
        decreases first.len() - i,
    {
        let f = Fragment { halfedge: first[i].halfedge, max: first[i].to };
        pieces.push(f);
        proof {
            assert(as_fragments(all)[i as int] == f);
            assert(as_fragments(all).take(i + 1) =~= as_fragments(all).take(i as int).push(f));
        }
        i += 1;
    }
    let mut j: usize = 0;
    while j < rest.len()
        invariant
            0 <= j <= rest.len(),
            all == first@ + rest@,
            pieces@ == as_fragments(all).take(first.len() + j),
        decreases rest.len() - j,
    {
        let f = Fragment { halfedge: rest[j].halfedge, max: rest[j].to };
        pieces.push(f);
        proof {
            assert(all[first.len() + j] == rest[j as int]);
            assert(as_fragments(all)[first.len() + j] == f);
            assert(as_fragments(all).take(first.len() + j + 1) =~= as_fragments(all).take(
                first.len() + j,
            ).push(f));
        }
        j += 1;
    }
    proof {
        assert(as_fragments(all).take(first.len() + rest.len()) =~= as_fragments(all));
    }
    pieces
}

/// The lowest slice plane for a mesh whose least coordinate is `lowest`:
/// the multiple of `spacing` at or below it, and a full step lower where
/// `lowest` is less than a hundred-thousandth of a step above a plane.
pub open spec fn lowest_plane(lowest: i64, spacing: i64) -> int {
    (lowest * 100_000 - spacing) / (spacing * 100_000) * spacing
}

/// The highest slice plane for a mesh whose greatest coordinate is
/// `highest`: the multiple of `spacing` at or above it, and a full step
/// higher where `highest` is less than a hundred-thousandth of a step
/// below a plane.
pub open spec fn highest_plane(highest: i64, spacing: i64) -> int {
    -((-highest * 100_000 - spacing) / (spacing * 100_000)) * spacing
}

/// `a / b` rounded down.
fn floor_div(a: i128, b: i128) -> (q: i128)
    requires
        0 < b <= 100_000_000_000_000,
        -100_000_000_000_000 <= a <= 100_000_000_000_000,
    ensures
        q == (a as int) / (b as int),
        -100_000_000_000_000 <= q <= 100_000_000_000_000,
{
    let ghost x = a as int;
    let ghost y = b as int;
    if a >= 0 {
        let q = a / b;
        assert(0 <= x / y <= x) by (nonlinear_arith)
            requires
                x >= 0,
                y > 0,
        ;
        q
    } else {
        let up: i128 = (b - 1 - a) / b;
        assert(0 <= (y - 1 - x) / y <= -x && -((y - 1 - x) / y) == x / y) by (nonlinear_arith)
            requires
                x < 0,
                y > 0,
        ;
        -up
    }
}

/// The lowest and the highest slice plane for a mesh that reaches from
/// `lowest` to `highest` along the axis.
pub fn slice_bounds(lowest: i64, highest: i64, spacing: i64) -> (r: (i64, i64))
    requires
        coord_ok(lowest),
        coord_ok(highest),
        0 < spacing <= COORD_MAX,
    ensures
        r.0 == lowest_plane(lowest, spacing),
        r.1 == highest_plane(highest, spacing),
{
    let s: i128 = spacing as i128;
    let below = floor_div((lowest as i128) * 100_000 - s, s * 100_000);
    let above = floor_div(-(highest as i128) * 100_000 - s, s * 100_000);
    proof {
        assert(-1_000_000_000_000_000_000_000_000 <= below * s <= 1_000_000_000_000_000_000_000_000)
            by (nonlinear_arith)
            requires
                -100_000_000_000_000 <= below <= 100_000_000_000_000,
                0 < s <= 500_000_000,
        ;
        assert(-1_000_000_000_000_000_000_000_000 <= above * s <= 1_000_000_000_000_000_000_000_000)
            by (nonlinear_arith)
            requires
                -100_000_000_000_000 <= above <= 100_000_000_000_000,
                0 < s <= 500_000_000,
        ;
        assert(lowest - 2 * s <= below * s <= lowest) by (nonlinear_arith)
            requires
                below == (lowest * 100_000 - s) / ((s * 100_000) as int),
                s > 0,
        ;
        assert(-highest - 2 * s <= above * s <= -highest) by (nonlinear_arith)
            requires
                above == (-highest * 100_000 - s) / ((s * 100_000) as int),
                s > 0,
        ;
        assert((-above) * s == -(above * s)) by (nonlinear_arith);
    }
    ((below * s) as i64, (-above * s) as i64)
}

} // verus!
