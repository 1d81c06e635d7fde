//! Triangles for the part of a cube face that an outline encloses.
//!
//! The outline is a graph on the unit square whose edges keep the inside
//! on their left, around islands one way and around holes the other. All
//! chords between two nodes that run inside and cross nothing are drawn,
//! one after the other; the region then falls into triangles, which are
//! collected. Only nodes of the outline become corners, so every triangle
//! next to the outline shares a whole edge with it.

use crate::graph::graph_edge_count;
use crate::graph::graph_edge_endpoints;
use crate::graph::graph_edges;
use crate::graph::graph_node_count;
use crate::graph::graph_node_weight;
use crate::graph::graph_nodes;
use crate::lattice::in_square;
use crate::lattice::HALF;
use crate::lattice::NEG_HALF;
use crate::lattice::Point2;
use crate::square::as_edges;
use petgraph::graph::Graph;
use vstd::prelude::*;

verus! {

pub open spec fn pt(p: Point2) -> (int, int) {
    (p.0 as int, p.1 as int)
}

pub open spec fn times(p: Point2, k: int) -> (int, int) {
    (k * p.0, k * p.1)
}

/// Twice the signed area of the triangle `a`, `b`, `c`: positive where the
/// three turn left.
pub open spec fn orient(a: (int, int), b: (int, int), c: (int, int)) -> int {
    (b.0 - a.0) * (c.1 - a.1) - (b.1 - a.1) * (c.0 - a.0)
}

/// `p` lies on the segment from `a` to `b`, at neither end.
pub open spec fn strictly_between(p: (int, int), a: (int, int), b: (int, int)) -> bool {
    &&& orient(a, b, p) == 0
    &&& (p.0 - a.0) * (b.0 - a.0) + (p.1 - a.1) * (b.1 - a.1) > 0
    &&& (p.0 - b.0) * (a.0 - b.0) + (p.1 - b.1) * (a.1 - b.1) > 0
}

pub open spec fn opposite(x: int, y: int) -> bool {
    (x > 0 && y < 0) || (x < 0 && y > 0)
}

/// The segments `a b` and `c d` cross at a point inside both.
pub open spec fn cross_properly(a: (int, int), b: (int, int), c: (int, int), d: (int, int)) -> bool {
    opposite(orient(a, b, c), orient(a, b, d)) && opposite(orient(c, d, a), orient(c, d, b))
}

/// The ray from `p` along the first axis meets the edge from `a` to `b`,
/// where `p` is given `k` times as large as the nodes are.
pub open spec fn ray_meets(a: Point2, b: Point2, p: (int, int), k: int) -> bool {
    let a = times(a, k);
    let b = times(b, k);
    ((a.1 > p.1) != (b.1 > p.1)) && if b.1 > a.1 {
        orient(a, b, p) > 0
    } else {
        orient(a, b, p) < 0
    }
}

/// How many of the first `n` edges the ray from `p` meets.
pub open spec fn crossings(nodes: Seq<Point2>, edges: Seq<(int, int)>, p: (int, int), k: int, n: nat) -> nat
    decreases n,
{
    if n == 0 {
        0
    } else {
        crossings(nodes, edges, p, k, (n - 1) as nat) + if ray_meets(
            nodes[edges[n - 1].0],
            nodes[edges[n - 1].1],
            p,
            k,
        ) {
            1nat
        } else {
            0nat
        }
    }
}

/// `p` lies inside the outline: a ray from it leaves the outline an odd
/// number of times.
pub open spec fn inside(nodes: Seq<Point2>, edges: Seq<(int, int)>, p: (int, int), k: int) -> bool {
    crossings(nodes, edges, p, k, edges.len()) % 2 == 1
}

/// A segment joins the nodes `i` and `j`.
pub open spec fn linked(segments: Seq<(int, int)>, i: int, j: int) -> bool {
    exists|s: int|
        0 <= s < segments.len() && (#[trigger] segments[s] == (i, j) || segments[s] == (j, i))
}

/// A segment crosses the chord from node `i` to node `j`.
pub open spec fn crossed(nodes: Seq<Point2>, segments: Seq<(int, int)>, i: int, j: int) -> bool {
    exists|s: int|
        0 <= s < segments.len() && cross_properly(
            pt(nodes[i]),
            pt(nodes[j]),
            pt(nodes[(#[trigger] segments[s]).0]),
            pt(nodes[segments[s].1]),
        )
}

/// A node lies on the chord from node `i` to node `j`, at neither end.
pub open spec fn stabbed(nodes: Seq<Point2>, i: int, j: int) -> bool {
    exists|m: int|
        0 <= m < nodes.len() && strictly_between(pt(#[trigger] nodes[m]), pt(nodes[i]), pt(nodes[j]))
}

/// The chord from node `i` to node `j` can be drawn: the two nodes lie
/// apart, no segment joins them or crosses the chord, no node lies on the
/// chord, and the middle of the chord lies inside the outline.
pub open spec fn chord_ok(
    nodes: Seq<Point2>,
    edges: Seq<(int, int)>,
    segments: Seq<(int, int)>,
    i: int,
    j: int,
) -> bool {
    &&& nodes[i] != nodes[j]
    &&& !linked(segments, i, j)
    &&& !crossed(nodes, segments, i, j)
    &&& !stabbed(nodes, i, j)
    &&& inside(nodes, edges, (nodes[i].0 + nodes[j].0, nodes[i].1 + nodes[j].1), 2)
}

/// The segments after the chords from node `i` to the nodes below `j` have
/// been tried in order.
pub open spec fn chords_row(
    nodes: Seq<Point2>,
    edges: Seq<(int, int)>,
    segments: Seq<(int, int)>,
    i: int,
    j: nat,
) -> Seq<(int, int)>
    decreases j,
{
    if j == 0 {
        segments
    } else {
        let before = chords_row(nodes, edges, segments, i, (j - 1) as nat);
        if i < j - 1 && chord_ok(nodes, edges, before, i, j - 1) {
            before.push((i, j - 1))
        } else {
            before
        }
    }
}

/// The edges of the outline and the chords drawn from the nodes below `i`.
pub open spec fn chords_upto(nodes: Seq<Point2>, edges: Seq<(int, int)>, i: nat) -> Seq<(int, int)>
    decreases i,
{
    if i == 0 {
        edges
    } else {
        chords_row(nodes, edges, chords_upto(nodes, edges, (i - 1) as nat), i - 1, nodes.len())
    }
}

/// `p` lies in the triangle `a`, `b`, `c` or on its rim.
pub open spec fn in_triangle(p: (int, int), a: (int, int), b: (int, int), c: (int, int)) -> bool {
    let o1 = orient(a, b, p);
    let o2 = orient(b, c, p);
    let o3 = orient(c, a, p);
    (o1 >= 0 && o2 >= 0 && o3 >= 0) || (o1 <= 0 && o2 <= 0 && o3 <= 0)
}

/// A node other than `i`, `j` and `k` lies in their triangle.
pub open spec fn occupied(nodes: Seq<Point2>, i: int, j: int, k: int) -> bool {
    exists|m: int|
        0 <= m < nodes.len() && m != i && m != j && m != k && in_triangle(
            pt(#[trigger] nodes[m]),
            pt(nodes[i]),
            pt(nodes[j]),
            pt(nodes[k]),
        )
}

/// The nodes `i`, `j` and `k` are the corners of a triangle of the
/// region: segments join each two of them, they do not lie in a line, no
/// other node lies in their triangle, and its centre lies inside the
/// outline.
pub open spec fn face_ok(
    nodes: Seq<Point2>,
    edges: Seq<(int, int)>,
    segments: Seq<(int, int)>,
    i: int,
    j: int,
    k: int,
) -> bool {
    &&& linked(segments, i, j)
    &&& linked(segments, j, k)
    &&& linked(segments, i, k)
    &&& orient(pt(nodes[i]), pt(nodes[j]), pt(nodes[k])) != 0
    &&& !occupied(nodes, i, j, k)
    &&& inside(
        nodes,
        edges,
        (nodes[i].0 + nodes[j].0 + nodes[k].0, nodes[i].1 + nodes[j].1 + nodes[k].1),
        3,
    )
}

/// The triangle of the nodes `i`, `j` and `k`, turning left.
pub open spec fn turned_left(nodes: Seq<Point2>, i: int, j: int, k: int) -> (Point2, Point2, Point2) {
    if orient(pt(nodes[i]), pt(nodes[j]), pt(nodes[k])) > 0 {
        (nodes[i], nodes[j], nodes[k])
    } else {
        (nodes[i], nodes[k], nodes[j])
    }
}

/// The triangles with the corners `i`, `j` and a node below `k`.
pub open spec fn faces_k(
    nodes: Seq<Point2>,
    edges: Seq<(int, int)>,
    segments: Seq<(int, int)>,
    i: int,
    j: int,
    k: nat,
) -> Seq<(Point2, Point2, Point2)>
    decreases k,
{
    if k == 0 {
        Seq::empty()
    } else {
        let before = faces_k(nodes, edges, segments, i, j, (k - 1) as nat);
        if j < k - 1 && face_ok(nodes, edges, segments, i, j, k - 1) {
            before.push(turned_left(nodes, i, j, k - 1))
        } else {
            before
        }
    }
}

/// The triangles with the corner `i` and a second corner below `j`.
pub open spec fn faces_j(
    nodes: Seq<Point2>,
    edges: Seq<(int, int)>,
    segments: Seq<(int, int)>,
    i: int,
    j: nat,
) -> Seq<(Point2, Point2, Point2)>
    decreases j,
{
    if j == 0 {
        Seq::empty()
    } else {
        let before = faces_j(nodes, edges, segments, i, (j - 1) as nat);
        if i < j - 1 {
            before + faces_k(nodes, edges, segments, i, j - 1, nodes.len())
        } else {
            before
        }
    }
}

/// The triangles whose first corner is a node below `i`.
pub open spec fn faces_i(
    nodes: Seq<Point2>,
    edges: Seq<(int, int)>,
    segments: Seq<(int, int)>,
    i: nat,
) -> Seq<(Point2, Point2, Point2)>
    decreases i,
{
    if i == 0 {
        Seq::empty()
    } else {
        faces_i(nodes, edges, segments, (i - 1) as nat) + faces_j(
            nodes,
            edges,
            segments,
            i - 1,
            nodes.len(),
        )
    }
}

/// The triangles of the region that the outline encloses.
pub open spec fn triangles_of(nodes: Seq<Point2>, edges: Seq<(int, int)>) -> Seq<
    (Point2, Point2, Point2),
> {
    faces_i(nodes, edges, chords_upto(nodes, edges, nodes.len()), nodes.len())
}

/// Both coordinates are at most three times as large as in the square.
pub open spec fn in_reach(p: (int, int)) -> bool {
    -1_500_000 <= p.0 <= 1_500_000 && -1_500_000 <= p.1 <= 1_500_000
}

/// The nodes lie in the square, and every edge joins two of them.
pub open spec fn outline_ok(nodes: Seq<Point2>, edges: Seq<(usize, usize)>) -> bool {
    &&& forall|i: int| 0 <= i < nodes.len() ==> in_square(#[trigger] nodes[i])
    &&& forall|e: int|
        0 <= e < edges.len() ==> (#[trigger] edges[e]).0 < nodes.len() && edges[e].1 < nodes.len()
}

fn orient_of(a: (i64, i64), b: (i64, i64), c: (i64, i64)) -> (r: i64)
    requires
        in_reach((a.0 as int, a.1 as int)),
        in_reach((b.0 as int, b.1 as int)),
        in_reach((c.0 as int, c.1 as int)),
    ensures
        r == orient((a.0 as int, a.1 as int), (b.0 as int, b.1 as int), (c.0 as int, c.1 as int)),
{
    let ux = b.0 - a.0;
    let uy = b.1 - a.1;
    let vx = c.0 - a.0;
    let vy = c.1 - a.1;
    proof {
        assert(-9_000_000_000_000 <= ux * vy <= 9_000_000_000_000) by (nonlinear_arith)
            requires
                -3_000_000 <= ux <= 3_000_000,
                -3_000_000 <= vy <= 3_000_000,
        ;
        assert(-9_000_000_000_000 <= uy * vx <= 9_000_000_000_000) by (nonlinear_arith)
            requires
                -3_000_000 <= uy <= 3_000_000,
                -3_000_000 <= vx <= 3_000_000,
        ;
    }
    ux * vy - uy * vx
}

fn dot_from(p: Point2, a: Point2, b: Point2) -> (r: i64)
    requires
        in_square(p),
        in_square(a),
        in_square(b),
    ensures
        r == (p.0 - a.0) * (b.0 - a.0) + (p.1 - a.1) * (b.1 - a.1),
{
    let ux = p.0 - a.0;
    let uy = p.1 - a.1;
    let vx = b.0 - a.0;
    let vy = b.1 - a.1;
    proof {
        assert(-1_000_000_000_000 <= ux * vx <= 1_000_000_000_000) by (nonlinear_arith)
            requires
                -1_000_000 <= ux <= 1_000_000,
                -1_000_000 <= vx <= 1_000_000,
        ;
        assert(-1_000_000_000_000 <= uy * vy <= 1_000_000_000_000) by (nonlinear_arith)
            requires
                -1_000_000 <= uy <= 1_000_000,
                -1_000_000 <= vy <= 1_000_000,
        ;
    }
    ux * vx + uy * vy
}

fn is_strictly_between(p: Point2, a: Point2, b: Point2) -> (r: bool)
    requires
        in_square(p),
        in_square(a),
        in_square(b),
    ensures
        r == strictly_between(pt(p), pt(a), pt(b)),
{
    orient_of(a, b, p) == 0 && dot_from(p, a, b) > 0 && dot_from(p, b, a) > 0
}

fn are_opposite(x: i64, y: i64) -> (r: bool)
    ensures
        r == opposite(x as int, y as int),
{
    (x > 0 && y < 0) || (x < 0 && y > 0)
}

fn do_cross(a: Point2, b: Point2, c: Point2, d: Point2) -> (r: bool)
    requires
        in_square(a),
        in_square(b),
        in_square(c),
        in_square(d),
    ensures
        r == cross_properly(pt(a), pt(b), pt(c), pt(d)),
{
    are_opposite(orient_of(a, b, c), orient_of(a, b, d)) && are_opposite(
        orient_of(c, d, a),
        orient_of(c, d, b),
    )
}

fn scale(k: i64, c: i64) -> (r: i64)
    requires
        1 <= k <= 3,
        -500_000 <= c <= 500_000,
    ensures
        r == k * c,
        -1_500_000 <= r <= 1_500_000,
{
    assert(-1_500_000 <= k * c <= 1_500_000) by (nonlinear_arith)
        requires
            1 <= k <= 3,
            -500_000 <= c <= 500_000,
    ;
    k * c
}

fn does_ray_meet(a: Point2, b: Point2, p: (i64, i64), k: i64) -> (r: bool)
    requires
        in_square(a),
        in_square(b),
        1 <= k <= 3,
        in_reach((p.0 as int, p.1 as int)),
    ensures
        r == ray_meets(a, b, (p.0 as int, p.1 as int), k as int),
{
    let a2: (i64, i64) = (scale(k, a.0), scale(k, a.1));
    let b2: (i64, i64) = (scale(k, b.0), scale(k, b.1));
    if (a2.1 > p.1) != (b2.1 > p.1) {
        let o = orient_of(a2, b2, p);
        if b2.1 > a2.1 {
            o > 0
        } else {
            o < 0
        }
    } else {
        false
    }
}

fn is_inside(nodes: &Vec<Point2>, edges: &Vec<(usize, usize)>, p: (i64, i64), k: i64) -> (r: bool)
    requires
        outline_ok(nodes@, edges@),
        1 <= k <= 3,
        in_reach((p.0 as int, p.1 as int)),
    ensures
        r == inside(nodes@, as_edges(edges@), (p.0 as int, p.1 as int), k as int),
{
    let mut odd = false;
    let mut e: usize = 0;
    while e < edges.len()
        invariant
            0 <= e <= edges.len(),
            outline_ok(nodes@, edges@),
            1 <= k <= 3,
            in_reach((p.0 as int, p.1 as int)),
            odd == (crossings(
                nodes@,
                as_edges(edges@),
                (p.0 as int, p.1 as int),
                k as int,
                e as nat,
            ) % 2 == 1),
        decreases edges.len() - e,
    {
        let ends = edges[e];
        proof {
            assert(as_edges(edges@)[e as int] == (ends.0 as int, ends.1 as int));
        }
        if does_ray_meet(nodes[ends.0], nodes[ends.1], p, k) {
            odd = !odd;
        }
        e += 1;
    }
    odd
}

fn is_linked(segments: &Vec<(usize, usize)>, i: usize, j: usize) -> (r: bool)
    ensures
        r == linked(as_edges(segments@), i as int, j as int),
{
    let mut s: usize = 0;
    while s < segments.len()
        invariant
            0 <= s <= segments.len(),
            forall|t: int|
                0 <= t < s ==> !(#[trigger] as_edges(segments@)[t] == (i as int, j as int)
                    || as_edges(segments@)[t] == (j as int, i as int)),
        decreases segments.len() - s,
    {
        let ends = segments[s];
        proof {
            assert(as_edges(segments@)[s as int] == (ends.0 as int, ends.1 as int));
        }
        if (ends.0 == i && ends.1 == j) || (ends.0 == j && ends.1 == i) {
            return true;
        }
        s += 1;
    }
    false
}

fn is_crossed(nodes: &Vec<Point2>, segments: &Vec<(usize, usize)>, i: usize, j: usize) -> (r: bool)
    requires
        outline_ok(nodes@, segments@),
        i < nodes.len(),
        j < nodes.len(),
    ensures
        r == crossed(nodes@, as_edges(segments@), i as int, j as int),
{
    let mut s: usize = 0;
    while s < segments.len()
        invariant
            0 <= s <= segments.len(),
            outline_ok(nodes@, segments@),
            i < nodes.len(),
            j < nodes.len(),
            forall|t: int|
                0 <= t < s ==> !cross_properly(
                    pt(nodes[i as int]),
                    pt(nodes[j as int]),
                    pt(nodes[(#[trigger] as_edges(segments@)[t]).0]),
                    pt(nodes[as_edges(segments@)[t].1]),
                ),
        decreases segments.len() - s,
    {
        let ends = segments[s];
        proof {
            assert(as_edges(segments@)[s as int] == (ends.0 as int, ends.1 as int));
        }
        if do_cross(nodes[i], nodes[j], nodes[ends.0], nodes[ends.1]) {
            return true;
        }
        s += 1;
    }
    false
}

fn is_stabbed(nodes: &Vec<Point2>, i: usize, j: usize) -> (r: bool)
    requires
        forall|m: int| 0 <= m < nodes.len() ==> in_square(#[trigger] nodes[m]),
        i < nodes.len(),
        j < nodes.len(),
    ensures
        r == stabbed(nodes@, i as int, j as int),
{
    let mut m: usize = 0;
    while m < nodes.len()
        invariant
            0 <= m <= nodes.len(),
            forall|t: int| 0 <= t < nodes.len() ==> in_square(#[trigger] nodes[t]),
            i < nodes.len(),
            j < nodes.len(),
            forall|t: int|
                0 <= t < m ==> !strictly_between(
                    pt(#[trigger] nodes[t]),
                    pt(nodes[i as int]),
                    pt(nodes[j as int]),
                ),
        decreases nodes.len() - m,
    {
        if is_strictly_between(nodes[m], nodes[i], nodes[j]) {
            return true;
        }
        m += 1;
    }
    false
}

fn is_in_triangle(p: Point2, a: Point2, b: Point2, c: Point2) -> (r: bool)
    requires
        in_square(p),
        in_square(a),
        in_square(b),
        in_square(c),
    ensures
        r == in_triangle(pt(p), pt(a), pt(b), pt(c)),
{
    let o1 = orient_of(a, b, p);
    let o2 = orient_of(b, c, p);
    let o3 = orient_of(c, a, p);
    (o1 >= 0 && o2 >= 0 && o3 >= 0) || (o1 <= 0 && o2 <= 0 && o3 <= 0)
}

fn is_occupied(nodes: &Vec<Point2>, i: usize, j: usize, k: usize) -> (r: bool)
    requires
        forall|m: int| 0 <= m < nodes.len() ==> in_square(#[trigger] nodes[m]),
        i < nodes.len(),
        j < nodes.len(),
        k < nodes.len(),
    ensures
        r == occupied(nodes@, i as int, j as int, k as int),
{
    let mut m: usize = 0;
    while m < nodes.len()
        invariant
            0 <= m <= nodes.len(),
            forall|t: int| 0 <= t < nodes.len() ==> in_square(#[trigger] nodes[t]),
            i < nodes.len(),
            j < nodes.len(),
            k < nodes.len(),
            forall|t: int|
                0 <= t < m ==> !(t != i && t != j && t != k && in_triangle(
                    pt(#[trigger] nodes[t]),
                    pt(nodes[i as int]),
                    pt(nodes[j as int]),
                    pt(nodes[k as int]),
                )),
        decreases nodes.len() - m,
    {
        if m != i && m != j && m != k && is_in_triangle(nodes[m], nodes[i], nodes[j], nodes[k]) {
            return true;
        }
        m += 1;
    }
    false
}

fn is_chord_ok(
    nodes: &Vec<Point2>,
    edges: &Vec<(usize, usize)>,
    segments: &Vec<(usize, usize)>,
    i: usize,
    j: usize,
) -> (r: bool)
    requires
        outline_ok(nodes@, edges@),
        outline_ok(nodes@, segments@),
        i < nodes.len(),
        j < nodes.len(),
    ensures
        r == chord_ok(nodes@, as_edges(edges@), as_edges(segments@), i as int, j as int),
{
    let a = nodes[i];
    let b = nodes[j];
    if a.0 == b.0 && a.1 == b.1 {
        return false;
    }
    if is_linked(segments, i, j) || is_crossed(nodes, segments, i, j) || is_stabbed(nodes, i, j) {
        return false;
    }
    is_inside(nodes, edges, (a.0 + b.0, a.1 + b.1), 2)
}

/// The edges of the outline and all chords that can be drawn.
fn draw_chords(nodes: &Vec<Point2>, edges: &Vec<(usize, usize)>) -> (segments: Vec<(usize, usize)>)
    requires
        outline_ok(nodes@, edges@),
    ensures
        as_edges(segments@) == chords_upto(nodes@, as_edges(edges@), nodes.len() as nat),
        outline_ok(nodes@, segments@),
{
    let n = nodes.len();
    let mut segments = crate::seqs::copy_of(edges);
    let mut i: usize = 0;
    while i < n
        invariant
            0 <= i <= n,
            n == nodes.len(),
            outline_ok(nodes@, edges@),
            outline_ok(nodes@, segments@),
            as_edges(segments@) == chords_upto(nodes@, as_edges(edges@), i as nat),
        decreases n - i,
    {
        let ghost start = as_edges(segments@);
        let mut j: usize = 0;
        while j < n
            invariant
                0 <= j <= n,
                i < n,
                n == nodes.len(),
                outline_ok(nodes@, edges@),
                outline_ok(nodes@, segments@),
                as_edges(segments@) == chords_row(
                    nodes@,
                    as_edges(edges@),
                    start,
                    i as int,
                    j as nat,
                ),
            decreases n - j,
        {
            if i < j && is_chord_ok(nodes, edges, &segments, i, j) {
                let ghost before = as_edges(segments@);
                segments.push((i, j));
                proof {
                    assert(as_edges(segments@) =~= before.push((i as int, j as int)));
                }
            }
            j += 1;
        }
        i += 1;
    }
    segments
}

fn is_face_ok(
    nodes: &Vec<Point2>,
    edges: &Vec<(usize, usize)>,
    segments: &Vec<(usize, usize)>,
    i: usize,
    j: usize,
    k: usize,
) -> (r: bool)
    requires
        outline_ok(nodes@, edges@),
        i < nodes.len(),
        j < nodes.len(),
        k < nodes.len(),
    ensures
        r == face_ok(nodes@, as_edges(edges@), as_edges(segments@), i as int, j as int, k as int),
{
    if !(is_linked(segments, i, j) && is_linked(segments, j, k) && is_linked(segments, i, k)) {
        return false;
    }
    let a = nodes[i];
    let b = nodes[j];
    let c = nodes[k];
    if orient_of(a, b, c) == 0 || is_occupied(nodes, i, j, k) {
        return false;
    }
    is_inside(nodes, edges, (a.0 + b.0 + c.0, a.1 + b.1 + c.1), 3)
}

/// Swapping two corners turns a triangle round.
proof fn lemma_orient_swap(a: (int, int), b: (int, int), c: (int, int))
    ensures
        orient(a, c, b) == -orient(a, b, c),
{
    assert((c.0 - a.0) * (b.1 - a.1) - (c.1 - a.1) * (b.0 - a.0) == -((b.0 - a.0) * (c.1 - a.1) - (
    b.1 - a.1) * (c.0 - a.0))) by (nonlinear_arith);
}

/// The triangle turns left.
pub open spec fn turns_left(t: (Point2, Point2, Point2)) -> bool {
    orient(pt(t.0), pt(t.1), pt(t.2)) > 0
}

/// The triangles into which the segments divide the region.
fn collect_faces(nodes: &Vec<Point2>, edges: &Vec<(usize, usize)>, segments: &Vec<(usize, usize)>) -> (faces:
    Vec<(Point2, Point2, Point2)>)
    requires
        outline_ok(nodes@, edges@),
    ensures
        faces@ == faces_i(nodes@, as_edges(edges@), as_edges(segments@), nodes.len() as nat),
        forall|f: int|
            0 <= f < faces.len() ==> in_square((#[trigger] faces[f]).0) && in_square(faces[f].1)
                && in_square(faces[f].2),
        forall|f: int| 0 <= f < faces.len() ==> turns_left(#[trigger] faces[f]),
{
    let n = nodes.len();
    let ghost e = as_edges(edges@);
    let ghost s = as_edges(segments@);
    let mut faces: Vec<(Point2, Point2, Point2)> = Vec::new();
    let mut i: usize = 0;
    while i < n
        invariant
            0 <= i <= n,
            n == nodes.len(),
            outline_ok(nodes@, edges@),
            e == as_edges(edges@),
            s == as_edges(segments@),
            faces@ == faces_i(nodes@, e, s, i as nat),
            forall|f: int|
                0 <= f < faces.len() ==> in_square((#[trigger] faces[f]).0) && in_square(
                    faces[f].1,
                ) && in_square(faces[f].2),
            forall|f: int| 0 <= f < faces.len() ==> turns_left(#[trigger] faces[f]),
        decreases n - i,
    {
        let ghost outer = faces@;
        let mut j: usize = 0;
        assert(outer + faces_j(nodes@, e, s, i as int, 0) =~= outer);
        while j < n
            invariant
                0 <= j <= n,
                i < n,
                n == nodes.len(),
                outline_ok(nodes@, edges@),
                e == as_edges(edges@),
                s == as_edges(segments@),
                faces@ == outer + faces_j(nodes@, e, s, i as int, j as nat),
                forall|f: int|
                    0 <= f < faces.len() ==> in_square((#[trigger] faces[f]).0) && in_square(
                        faces[f].1,
                    ) && in_square(faces[f].2),
                forall|f: int| 0 <= f < faces.len() ==> turns_left(#[trigger] faces[f]),
            decreases n - j,
        {
            if i < j {
                let ghost middle = faces@;
                let mut k: usize = 0;
                assert(middle + faces_k(nodes@, e, s, i as int, j as int, 0) =~= middle);
                while k < n
                    invariant
                        0 <= k <= n,
                        i < j < n,
                        n == nodes.len(),
                        outline_ok(nodes@, edges@),
                        e == as_edges(edges@),
                        s == as_edges(segments@),
                        faces@ == middle + faces_k(nodes@, e, s, i as int, j as int, k as nat),
                        forall|f: int|
                            0 <= f < faces.len() ==> in_square((#[trigger] faces[f]).0)
                                && in_square(faces[f].1) && in_square(faces[f].2),
                        forall|f: int| 0 <= f < faces.len() ==> turns_left(#[trigger] faces[f]),
                    decreases n - k,
                {
                    if j < k && is_face_ok(nodes, edges, segments, i, j, k) {
                        let face = if orient_of(nodes[i], nodes[j], nodes[k]) > 0 {
                            (nodes[i], nodes[j], nodes[k])
                        } else {
                            (nodes[i], nodes[k], nodes[j])
                        };
                        let ghost inner = faces_k(nodes@, e, s, i as int, j as int, k as nat);
                        faces.push(face);
                        proof {
                            lemma_orient_swap(
                                pt(nodes[i as int]),
                                pt(nodes[j as int]),
                                pt(nodes[k as int]),
                            );
                            assert(turns_left(face));
                            assert(face == turned_left(nodes@, i as int, j as int, k as int));
                            assert(middle + inner.push(face) =~= (middle + inner).push(face));
                        }
                    }
                    k += 1;
                }
                proof {
                    let row = faces_j(nodes@, e, s, i as int, j as nat);
                    let last = faces_k(nodes@, e, s, i as int, j as int, n as nat);
                    assert(outer + (row + last) =~= (outer + row) + last);
                }
            }
            j += 1;
        }
        i += 1;
    }
    faces
}

/// The triples as triangles.
pub open spec fn as_triples(triangles: Seq<[Point2; 3]>) -> Seq<(Point2, Point2, Point2)> {
    Seq::new(triangles.len(), |t: int| (triangles[t][0], triangles[t][1], triangles[t][2]))
}

/// The triangles of the part of the square that the outline encloses,
/// each turning left; nothing where a node of the outline lies outside
/// the square.
///
/// The corners of the triangles are nodes of the outline. An edge of the
/// outline keeps the inside on its left, so the triangle at an edge runs
/// along it the same way.
pub fn triangulate(outline: &Graph<(i64, i64), ()>) -> (triangles: Option<Vec<[Point2; 3]>>)
    ensures
        triangles is Some <==> forall|i: int|
            0 <= i < graph_nodes(*outline).len() ==> in_square(#[trigger] graph_nodes(*outline)[i]),
        triangles is Some ==> as_triples(triangles->0@) == triangles_of(
            graph_nodes(*outline),
            graph_edges(*outline),
        ),
        triangles is Some ==> forall|t: int, c: int|
            0 <= t < triangles->0.len() && 0 <= c < 3 ==> in_square(
                #[trigger] triangles->0[t][c],
            ),
        triangles is Some ==> forall|t: int|
            0 <= t < triangles->0.len() ==> turns_left(#[trigger] as_triples(triangles->0@)[t]),
{
    let n = graph_node_count(outline);
    let mut nodes: Vec<Point2> = Vec::new();
    let mut i: usize = 0;
    while i < n
        invariant
            0 <= i <= n,
            n == graph_nodes(*outline).len(),
            nodes@ == graph_nodes(*outline).take(i as int),
            forall|k: int| 0 <= k < i ==> in_square(#[trigger] graph_nodes(*outline)[k]),
        decreases n - i,
    {
        let p = graph_node_weight(outline, i);
        if !(NEG_HALF <= p.0 && p.0 <= HALF && NEG_HALF <= p.1 && p.1 <= HALF) {
            assert(!in_square(graph_nodes(*outline)[i as int]));
            return None;
        }
        nodes.push(p);
        proof {
            assert(graph_nodes(*outline).take(i + 1) =~= graph_nodes(*outline).take(i as int).push(
                p,
            ));
        }
        i += 1;
    }
    proof {
        assert(graph_nodes(*outline).take(n as int) =~= graph_nodes(*outline));
    }
    let m = graph_edge_count(outline);
    let mut edges: Vec<(usize, usize)> = Vec::new();
    let mut e: usize = 0;
    while e < m
        invariant
            0 <= e <= m,
            m == graph_edges(*outline).len(),
            nodes@ == graph_nodes(*outline),
            edges.len() == e,
            forall|k: int|
                0 <= k < e ==> (#[trigger] edges[k]).0 < nodes.len() && edges[k].1 < nodes.len()
                    && (edges[k].0 as int, edges[k].1 as int) == graph_edges(*outline)[k],
        decreases m - e,
    {
        let ends = graph_edge_endpoints(outline, e);
        edges.push(ends);
        e += 1;
    }
    proof {
        assert(as_edges(edges@) =~= graph_edges(*outline));
    }
    let segments = draw_chords(&nodes, &edges);
    let faces = collect_faces(&nodes, &edges, &segments);
    let mut triangles: Vec<[Point2; 3]> = Vec::new();
    let mut t: usize = 0;
    while t < faces.len()
        invariant
            0 <= t <= faces.len(),
            triangles.len() == t,
            forall|f: int|
                0 <= f < faces.len() ==> in_square((#[trigger] faces[f]).0) && in_square(
                    faces[f].1,
                ) && in_square(faces[f].2),
            forall|f: int| 0 <= f < faces.len() ==> turns_left(#[trigger] faces[f]),
            forall|f: int|
                0 <= f < t ==> (#[trigger] triangles[f])[0] == faces[f].0 && triangles[f][1]
                    == faces[f].1 && triangles[f][2] == faces[f].2,
        decreases faces.len() - t,
    {
        let f = faces[t];
        triangles.push([f.0, f.1, f.2]);
        t += 1;
    }
    proof {
        assert(as_triples(triangles@) =~= faces@);
    }
    Some(triangles)
}

} // verus!
