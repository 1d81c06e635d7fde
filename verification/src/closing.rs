//! Where the outline of the square has to be drawn: degrees, the direction
//! in which edges lean, and the point at which the walk around the square
//! starts.

use crate::lattice::in_square;
use crate::lattice::Point2;
use crate::seqs::first_from;
use crate::seqs::lemma_filter_step;
use crate::seqs::lemma_first_from;
use crate::square::has_point;
use crate::square::Segment;
use crate::square::Stripped;
use vstd::prelude::*;

verus! {

pub open spec fn leaves(p: Point2) -> spec_fn(Segment) -> bool {
    |s: Segment| s.0 == p
}

pub open spec fn enters(p: Point2) -> spec_fn(Segment) -> bool {
    |s: Segment| s.1 == p
}

/// The number of edges that start at `p`.
pub open spec fn out_degree(edges: Seq<Segment>, p: Point2) -> nat {
    edges.filter(leaves(p)).len()
}

/// The number of edges that end at `p`.
pub open spec fn in_degree(edges: Seq<Segment>, p: Point2) -> nat {
    edges.filter(enters(p)).len()
}

/// The dot product of the segment's direction with `v`.
pub open spec fn dot_along(s: Segment, v: (int, int)) -> int {
    (s.1.0 - s.0.0) * v.0 + (s.1.1 - s.0.1) * v.1
}

/// The squared length of the segment.
pub open spec fn length_sq(s: Segment) -> int {
    (s.1.0 - s.0.0) * (s.1.0 - s.0.0) + (s.1.1 - s.0.1) * (s.1.1 - s.0.1)
}

/// `num_a / sqrt(sq_a) < num_b / sqrt(sq_b)` for positive `sq_a` and `sq_b`, told by
/// the signs and the squares.
pub open spec fn ratio_less(num_a: int, sq_a: int, num_b: int, sq_b: int) -> bool {
    if num_a < 0 && num_b >= 0 {
        true
    } else if num_a >= 0 && num_b < 0 {
        false
    } else if num_a >= 0 {
        num_a * num_a * sq_b < num_b * num_b * sq_a
    } else {
        num_a * num_a * sq_b > num_b * num_b * sq_a
    }
}

/// The cosine between the incoming edge `a` and `v` is below the cosine
/// between the outgoing edge `b` and `-v`.
pub open spec fn in_below_out(a: Segment, b: Segment, v: (int, int)) -> bool {
    ratio_less(dot_along(a, v), length_sq(a), -dot_along(b, v), length_sq(b))
}

/// The least cosine between an edge that ends at `p` and `v` is below the
/// least cosine between an edge that starts at `p` and `-v`.
pub open spec fn ins_lean_less(edges: Seq<Segment>, p: Point2, v: (int, int)) -> bool {
    exists|a: int|
        0 <= a < edges.len() && (#[trigger] edges[a]).1 == p && forall|b: int|
            0 <= b < edges.len() && (#[trigger] edges[b]).0 == p ==> in_below_out(
                edges[a],
                edges[b],
                v,
            )
}

/// The cosine between the outgoing edge `b` and `-v` is below the cosine
/// between the incoming edge `a` and `v`.
pub open spec fn out_below_in(b: Segment, a: Segment, v: (int, int)) -> bool {
    ratio_less(-dot_along(b, v), length_sq(b), dot_along(a, v), length_sq(a))
}

/// The least cosine between an edge that starts at `p` and `-v` is below
/// the least cosine between an edge that ends at `p` and `v`.
pub open spec fn outs_lean_less(edges: Seq<Segment>, p: Point2, v: (int, int)) -> bool {
    exists|b: int|
        0 <= b < edges.len() && (#[trigger] edges[b]).0 == p && forall|a: int|
            0 <= a < edges.len() && (#[trigger] edges[a]).1 == p ==> out_below_in(
                edges[b],
                edges[a],
                v,
            )
}

pub open spec fn segment_in_square(s: Segment) -> bool {
    in_square(s.0) && in_square(s.1)
}

pub open spec fn all_in_square(edges: Seq<Segment>) -> bool {
    forall|k: int| 0 <= k < edges.len() ==> segment_in_square(#[trigger] edges[k])
}

/// A step between two points of the square.
pub open spec fn short(v: (int, int)) -> bool {
    -1_000_000 <= v.0 <= 1_000_000 && -1_000_000 <= v.1 <= 1_000_000
}

pub(crate) fn count_out(edges: &Vec<Segment>, p: Point2) -> (n: usize)
    ensures
        n == out_degree(edges@, p),
{
    let mut n: usize = 0;
    let mut i: usize = 0;
    proof {
        reveal(Seq::filter);
        assert(edges@.take(0).filter(leaves(p)) =~= Seq::<Segment>::empty());
    }
    while i < edges.len()
        invariant
            0 <= i <= edges.len(),
            n <= i,
            n == edges@.take(i as int).filter(leaves(p)).len(),
        decreases edges.len() - i,
    {
        proof {
            lemma_filter_step(edges@, leaves(p), i as int);
        }
        if edges[i].0.0 == p.0 && edges[i].0.1 == p.1 {
            n += 1;
        }
        i += 1;
    }
    proof {
        assert(edges@.take(edges.len() as int) =~= edges@);
    }
    n
}

pub(crate) fn count_in(edges: &Vec<Segment>, p: Point2) -> (n: usize)
    ensures
        n == in_degree(edges@, p),
{
    let mut n: usize = 0;
    let mut i: usize = 0;
    proof {
        reveal(Seq::filter);
        assert(edges@.take(0).filter(enters(p)) =~= Seq::<Segment>::empty());
    }
    while i < edges.len()
        invariant
            0 <= i <= edges.len(),
            n <= i,
            n == edges@.take(i as int).filter(enters(p)).len(),
        decreases edges.len() - i,
    {
        proof {
            lemma_filter_step(edges@, enters(p), i as int);
        }
        if edges[i].1.0 == p.0 && edges[i].1.1 == p.1 {
            n += 1;
        }
        i += 1;
    }
    proof {
        assert(edges@.take(edges.len() as int) =~= edges@);
    }
    n
}

/// The dot product of a segment of the square with a short step, and the
/// squared length of the segment.
fn lean(s: Segment, v: (i64, i64)) -> (r: (i128, i128))
    requires
        segment_in_square(s),
        short((v.0 as int, v.1 as int)),
    ensures
        r.0 == dot_along(s, (v.0 as int, v.1 as int)),
        r.1 == length_sq(s),
        -2_000_000_000_000 <= r.0 <= 2_000_000_000_000,
        0 <= r.1 <= 2_000_000_000_000,
{
    let dx: i128 = (s.1.0 - s.0.0) as i128;
    let dy: i128 = (s.1.1 - s.0.1) as i128;
    let vx: i128 = v.0 as i128;
    let vy: i128 = v.1 as i128;
    proof {
        assert(-1_000_000 <= dx <= 1_000_000 && -1_000_000 <= dy <= 1_000_000);
        assert(-1_000_000_000_000 <= dx * vx <= 1_000_000_000_000) by (nonlinear_arith)
            requires
                -1_000_000 <= dx <= 1_000_000,
                -1_000_000 <= vx <= 1_000_000,
        ;
        assert(-1_000_000_000_000 <= dy * vy <= 1_000_000_000_000) by (nonlinear_arith)
            requires
                -1_000_000 <= dy <= 1_000_000,
                -1_000_000 <= vy <= 1_000_000,
        ;
        assert(0 <= dx * dx <= 1_000_000_000_000) by (nonlinear_arith)
            requires
                -1_000_000 <= dx <= 1_000_000,
        ;
        assert(0 <= dy * dy <= 1_000_000_000_000) by (nonlinear_arith)
            requires
                -1_000_000 <= dy <= 1_000_000,
        ;
    }
    (dx * vx + dy * vy, dx * dx + dy * dy)
}

/// `p * p * q` for values within the bounds of `lean`.
fn square_times(p: i128, q: i128) -> (r: i128)
    requires
        -2_000_000_000_000 <= p <= 2_000_000_000_000,
        0 <= q <= 2_000_000_000_000,
    ensures
        r == p * p * q,
{
    proof {
        assert(0 <= p * p <= 4_000_000_000_000_000_000_000_000) by (nonlinear_arith)
            requires
                -2_000_000_000_000 <= p <= 2_000_000_000_000,
        ;
        let pp = p * p;
        assert(0 <= pp * q <= 8_000_000_000_000_000_000_000_000_000_000_000_000)
            by (nonlinear_arith)
            requires
                0 <= pp <= 4_000_000_000_000_000_000_000_000,
                0 <= q <= 2_000_000_000_000,
        ;
    }
    p * p * q
}

fn is_ratio_less(num_a: i128, sq_a: i128, num_b: i128, sq_b: i128) -> (r: bool)
    requires
        -2_000_000_000_000 <= num_a <= 2_000_000_000_000,
        0 <= sq_a <= 2_000_000_000_000,
        -2_000_000_000_000 <= num_b <= 2_000_000_000_000,
        0 <= sq_b <= 2_000_000_000_000,
    ensures
        r == ratio_less(num_a as int, sq_a as int, num_b as int, sq_b as int),
{
    if num_a < 0 && num_b >= 0 {
        true
    } else if num_a >= 0 && num_b < 0 {
        false
    } else if num_a >= 0 {
        square_times(num_a, sq_b) < square_times(num_b, sq_a)
    } else {
        square_times(num_a, sq_b) > square_times(num_b, sq_a)
    }
}

fn is_in_below_out(a: Segment, b: Segment, v: (i64, i64)) -> (r: bool)
    requires
        segment_in_square(a),
        segment_in_square(b),
        short((v.0 as int, v.1 as int)),
    ensures
        r == in_below_out(a, b, (v.0 as int, v.1 as int)),
{
    let la = lean(a, v);
    let lb = lean(b, v);
    is_ratio_less(la.0, la.1, -lb.0, lb.1)
}

fn is_out_below_in(b: Segment, a: Segment, v: (i64, i64)) -> (r: bool)
    requires
        segment_in_square(a),
        segment_in_square(b),
        short((v.0 as int, v.1 as int)),
    ensures
        r == out_below_in(b, a, (v.0 as int, v.1 as int)),
{
    let la = lean(a, v);
    let lb = lean(b, v);
    is_ratio_less(-lb.0, lb.1, la.0, la.1)
}

fn in_below_all_outs(edges: &Vec<Segment>, a: usize, p: Point2, v: (i64, i64)) -> (r: bool)
    requires
        a < edges.len(),
        all_in_square(edges@),
        short((v.0 as int, v.1 as int)),
    ensures
        r == forall|b: int|
            0 <= b < edges.len() && (#[trigger] edges[b]).0 == p ==> in_below_out(
                edges[a as int],
                edges[b],
                (v.0 as int, v.1 as int),
            ),
{
    let mut b: usize = 0;
    while b < edges.len()
        invariant
            0 <= b <= edges.len(),
            a < edges.len(),
            all_in_square(edges@),
            short((v.0 as int, v.1 as int)),
            forall|k: int|
                0 <= k < b && (#[trigger] edges[k]).0 == p ==> in_below_out(
                    edges[a as int],
                    edges[k],
                    (v.0 as int, v.1 as int),
                ),
        decreases edges.len() - b,
    {
        if edges[b].0.0 == p.0 && edges[b].0.1 == p.1 && !is_in_below_out(edges[a], edges[b], v) {
            return false;
        }
        b += 1;
    }
    true
}

fn out_below_all_ins(edges: &Vec<Segment>, b: usize, p: Point2, v: (i64, i64)) -> (r: bool)
    requires
        b < edges.len(),
        all_in_square(edges@),
        short((v.0 as int, v.1 as int)),
    ensures
        r == forall|a: int|
            0 <= a < edges.len() && (#[trigger] edges[a]).1 == p ==> out_below_in(
                edges[b as int],
                edges[a],
                (v.0 as int, v.1 as int),
            ),
{
    let mut a: usize = 0;
    while a < edges.len()
        invariant
            0 <= a <= edges.len(),
            b < edges.len(),
            all_in_square(edges@),
            short((v.0 as int, v.1 as int)),
            forall|k: int|
                0 <= k < a && (#[trigger] edges[k]).1 == p ==> out_below_in(
                    edges[b as int],
                    edges[k],
                    (v.0 as int, v.1 as int),
                ),
        decreases edges.len() - a,
    {
        if edges[a].1.0 == p.0 && edges[a].1.1 == p.1 && !is_out_below_in(edges[b], edges[a], v) {
            return false;
        }
        a += 1;
    }
    true
}

pub(crate) fn do_ins_lean_less(edges: &Vec<Segment>, p: Point2, v: (i64, i64)) -> (r: bool)
    requires
        all_in_square(edges@),
        short((v.0 as int, v.1 as int)),
    ensures
        r == ins_lean_less(edges@, p, (v.0 as int, v.1 as int)),
{
    let mut a: usize = 0;
    while a < edges.len()
        invariant
            0 <= a <= edges.len(),
            all_in_square(edges@),
            short((v.0 as int, v.1 as int)),
            forall|k: int|
                0 <= k < a ==> !((#[trigger] edges[k]).1 == p && forall|b: int|
                    0 <= b < edges.len() && (#[trigger] edges[b]).0 == p ==> in_below_out(
                        edges[k],
                        edges[b],
                        (v.0 as int, v.1 as int),
                    )),
        decreases edges.len() - a,
    {
        if edges[a].1.0 == p.0 && edges[a].1.1 == p.1 && in_below_all_outs(edges, a, p, v) {
            return true;
        }
        a += 1;
    }
    false
}

pub(crate) fn do_outs_lean_less(edges: &Vec<Segment>, p: Point2, v: (i64, i64)) -> (r: bool)
    requires
        all_in_square(edges@),
        short((v.0 as int, v.1 as int)),
    ensures
        r == outs_lean_less(edges@, p, (v.0 as int, v.1 as int)),
{
    let mut b: usize = 0;
    while b < edges.len()
        invariant
            0 <= b <= edges.len(),
            all_in_square(edges@),
            short((v.0 as int, v.1 as int)),
            forall|k: int|
                0 <= k < b ==> !((#[trigger] edges[k]).0 == p && forall|a: int|
                    0 <= a < edges.len() && (#[trigger] edges[a]).1 == p ==> out_below_in(
                        edges[k],
                        edges[a],
                        (v.0 as int, v.1 as int),
                    )),
        decreases edges.len() - b,
    {
        if edges[b].0.0 == p.0 && edges[b].0.1 == p.1 && out_below_all_ins(edges, b, p, v) {
            return true;
        }
        b += 1;
    }
    false
}

/// Index `i` on a cycle of `n` points, for `0 <= i < 2 * n`.
pub open spec fn wrap(i: int, n: int) -> int {
    if i >= n {
        i - n
    } else {
        i
    }
}

/// The step from the outline point `i` to the next one around the square.
pub open spec fn step_from(points: Seq<Point2>, i: int) -> (int, int) {
    let q = points[wrap(i + 1, points.len() as int)];
    (q.0 - points[i].0, q.1 - points[i].1)
}

/// A node at which more edges end than start: the outline has to leave it.
pub open spec fn lacks_exit(st: Stripped, points: Seq<Point2>) -> spec_fn(int) -> bool {
    |i: int|
        st.nodes.contains(points[i]) && out_degree(st.edges, points[i]) < in_degree(
            st.edges,
            points[i],
        )
}

/// A node with as many edges ending as starting, none of each or with the
/// incoming edges leaning less along the outline than the outgoing edges
/// lean against it.
pub open spec fn balanced_start(st: Stripped, points: Seq<Point2>) -> spec_fn(int) -> bool {
    |i: int|
        st.nodes.contains(points[i]) && out_degree(st.edges, points[i]) == in_degree(
            st.edges,
            points[i],
        ) && (in_degree(st.edges, points[i]) == 0 || ins_lean_less(
            st.edges,
            points[i],
            step_from(points, i),
        ))
}

/// The outline point at which the walk around the square starts, if any:
/// the first that lacks an exit, else the first balanced start, else the
/// first point of all when nothing but edges along the outline with the
/// centre on their right was there.
pub open spec fn start_index(st: Stripped, points: Seq<Point2>) -> Option<int> {
    let n = points.len() as int;
    let a = first_from(lacks_exit(st, points), 0, n);
    let b = first_from(balanced_start(st, points), 0, n);
    if a < n {
        Some(a)
    } else if b < n {
        Some(b)
    } else if st.edges.len() == 0 && st.ignored_right && !st.ignored_left {
        Some(0)
    } else {
        None
    }
}

pub open spec fn points_in_square(points: Seq<Point2>) -> bool {
    forall|k: int| 0 <= k < points.len() ==> in_square(#[trigger] points[k])
}

/// What `Stripped` describes, as plain data.
pub(crate) struct StrippedData {
    pub(crate) nodes: Vec<Point2>,
    pub(crate) edges: Vec<Segment>,
    pub(crate) ignored_left: bool,
    pub(crate) ignored_right: bool,
}

impl StrippedData {
    pub(crate) open spec fn model(&self) -> Stripped {
        Stripped {
            nodes: self.nodes@,
            edges: self.edges@,
            ignored_left: self.ignored_left,
            ignored_right: self.ignored_right,
        }
    }
}

pub(crate) fn find_start(st: &StrippedData, points: &Vec<Point2>) -> (r: Option<usize>)
    requires
        points.len() >= 1,
        points_in_square(points@),
        all_in_square(st.edges@),
    ensures
        match r {
            Some(i) => i < points.len() && start_index(st.model(), points@) == Some(i as int),
            None => start_index(st.model(), points@) is None,
        },
{
    let n = points.len();
    let ghost m = st.model();
    let mut i: usize = 0;
    while i < n
        invariant
            0 <= i <= n,
            n == points.len(),
            m == st.model(),
            forall|k: int| 0 <= k < i ==> !#[trigger] lacks_exit(m, points@)(k),
        decreases n - i,
    {
        let p = points[i];
        if has_point(&st.nodes, p) && count_out(&st.edges, p) < count_in(&st.edges, p) {
            proof {
                lemma_first_from(lacks_exit(m, points@), 0, i as int, n as int);
            }
            return Some(i);
        }
        i += 1;
    }
    proof {
        lemma_first_from(lacks_exit(m, points@), 0, n as int, n as int);
    }
    let mut i: usize = 0;
    while i < n
        invariant
            0 <= i <= n,
            n == points.len(),
            n >= 1,
            m == st.model(),
            points_in_square(points@),
            all_in_square(st.edges@),
            first_from(lacks_exit(m, points@), 0, n as int) == n,
            forall|k: int| 0 <= k < i ==> !#[trigger] balanced_start(m, points@)(k),
        decreases n - i,
    {
        let p = points[i];
        let next: usize = if i + 1 == n {
            0
        } else {
            i + 1
        };
        let q = points[next];
        if has_point(&st.nodes, p) {
            let ins = count_in(&st.edges, p);
            if count_out(&st.edges, p) == ins {
                assert(in_square(p) && in_square(q));
                let v: (i64, i64) = (q.0 - p.0, q.1 - p.1);
                assert((v.0 as int, v.1 as int) == step_from(points@, i as int));
                if ins == 0 || do_ins_lean_less(&st.edges, p, v) {
                    proof {
                        lemma_first_from(balanced_start(m, points@), 0, i as int, n as int);
                    }
                    return Some(i);
                }
            }
        }
        i += 1;
    }
    proof {
        lemma_first_from(balanced_start(m, points@), 0, n as int, n as int);
    }
    if st.edges.len() == 0 && st.ignored_right && !st.ignored_left {
        Some(0)
    } else {
        None
    }
}

/// An odd number of edges meets the node at `p`.
pub open spec fn odd_at(st: Stripped, p: Point2) -> bool {
    st.nodes.contains(p) && (out_degree(st.edges, p) + in_degree(st.edges, p)) % 2 == 1
}

/// Whether the walk, `k` steps after it started inside at `start`, is
/// inside the mesh: it changes sides at every node of odd degree.
pub open spec fn inside_after(st: Stripped, points: Seq<Point2>, start: int, k: nat) -> bool
    decreases k,
{
    if k == 0 {
        true
    } else {
        inside_after(st, points, start, (k - 1) as nat) != odd_at(
            st,
            points[wrap(start + k, points.len() as int)],
        )
    }
}

/// The piece of outline that the walk covers in its step `k`.
pub open spec fn walk_segment(points: Seq<Point2>, start: int, k: int) -> Segment {
    (points[wrap(start + k, points.len() as int)], points[wrap(start + k + 1, points.len() as int)])
}

/// The pieces of outline that the first `k` steps of the walk add: those
/// that it covers while inside.
pub open spec fn walked(st: Stripped, points: Seq<Point2>, start: int, k: nat) -> Seq<Segment>
    decreases k,
{
    if k == 0 {
        Seq::empty()
    } else {
        let before = walked(st, points, start, (k - 1) as nat);
        if inside_after(st, points, start, (k - 1) as nat) {
            before.push(walk_segment(points, start, k - 1))
        } else {
            before
        }
    }
}

pub(crate) fn is_odd_at(st: &StrippedData, p: Point2) -> (r: bool)
    ensures
        r == odd_at(st.model(), p),
{
    has_point(&st.nodes, p) && (count_out(&st.edges, p) % 2 != count_in(&st.edges, p) % 2)
}

pub(crate) fn walk(st: &StrippedData, points: &Vec<Point2>, start: usize) -> (r: Vec<Segment>)
    requires
        start < points.len(),
    ensures
        r@ == walked(st.model(), points@, start as int, points.len() as nat),
        r.len() <= points.len(),
        forall|k: int|
            0 <= k < r.len() ==> points@.contains((#[trigger] r[k]).0) && points@.contains(r[k].1),
{
    let n = points.len();
    let ghost m = st.model();
    let mut r: Vec<Segment> = Vec::new();
    let mut inside = true;
    let mut i: usize = start;
    let mut k: usize = 0;
    while k < n
        invariant
            0 <= k <= n,
            n == points.len(),
            start < n,
            m == st.model(),
            i == wrap(start + k, n as int) || (k == n && i == start),
            i < n,
            inside == inside_after(m, points@, start as int, k as nat),
            r@ == walked(m, points@, start as int, k as nat),
            r.len() <= k,
            forall|j: int|
                0 <= j < r.len() ==> points@.contains((#[trigger] r[j]).0) && points@.contains(
                    r[j].1,
                ),
        decreases n - k,
    {
        let j: usize = if i + 1 == n {
            0
        } else {
            i + 1
        };
        assert(j == wrap(start + k + 1, n as int));
        let turned = is_odd_at(st, points[j]) != inside;
        if inside {
            r.push((points[i], points[j]));
            assert(points@.contains(points[i as int]) && points@.contains(points[j as int]));
        }
        inside = turned;
        i = j;
        k += 1;
    }
    r
}

/// `a` lies lower than `b`, or as low and further along the first axis.
pub open spec fn lower(a: Point2, b: Point2) -> bool {
    a.1 < b.1 || (a.1 == b.1 && a.0 > b.0)
}

/// The lowest of the points: of several in one place the first.
pub open spec fn lowest(s: Seq<Point2>) -> Point2
    decreases s.len(),
{
    if s.len() <= 1 {
        s[0]
    } else {
        let best = lowest(s.drop_last());
        if lower(s.last(), best) {
            s.last()
        } else {
            best
        }
    }
}

/// The edges bound holes of a filled square: at the lowest node, which is a
/// convex corner of the outermost loop, some edge ends, and either none
/// starts or the outgoing edges lean less against the first axis than the
/// incoming edges lean along it.
pub open spec fn encloses(st: Stripped) -> bool {
    st.nodes.len() > 0 && in_degree(st.edges, lowest(st.nodes)) > 0 && (out_degree(
        st.edges,
        lowest(st.nodes),
    ) == 0 || outs_lean_less(st.edges, lowest(st.nodes), (1, 0)))
}

fn lowest_point(v: &Vec<Point2>) -> (r: Point2)
    requires
        v.len() > 0,
    ensures
        r == lowest(v@),
{
    let mut best = v[0];
    let mut i: usize = 1;
    assert(v@.take(1).len() == 1);
    assert(v@.take(1)[0] == v[0]);
    while i < v.len()
        invariant
            1 <= i <= v.len(),
            best == lowest(v@.take(i as int)),
        decreases v.len() - i,
    {
        proof {
            assert(v@.take(i + 1).drop_last() =~= v@.take(i as int));
            assert(v@.take(i + 1).last() == v[i as int]);
        }
        let p = v[i];
        if p.1 < best.1 || (p.1 == best.1 && p.0 > best.0) {
            best = p;
        }
        i += 1;
    }
    proof {
        assert(v@.take(v.len() as int) =~= v@);
    }
    best
}

pub(crate) fn does_enclose(st: &StrippedData) -> (r: bool)
    requires
        all_in_square(st.edges@),
    ensures
        r == encloses(st.model()),
{
    if st.nodes.len() == 0 {
        return false;
    }
    let low = lowest_point(&st.nodes);
    let v: (i64, i64) = (1, 0);
    count_in(&st.edges, low) > 0 && (count_out(&st.edges, low) == 0 || do_outs_lean_less(
        &st.edges,
        low,
        v,
    ))
}

} // verus!
