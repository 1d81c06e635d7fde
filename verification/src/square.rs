//! Closing a cube face: which part of the unit square lies inside the mesh,
//! given the mesh boundary that runs across the face.
//!
//! The boundary is a directed graph on the centred unit square whose edges
//! keep the inside of the mesh on their right. Identical positions are one
//! node, so an edge is told by the two positions it joins.

use crate::closing::does_enclose;
use crate::closing::encloses;
use crate::closing::find_start;
use crate::closing::start_index;
use crate::closing::walk;
use crate::closing::walked;
use crate::closing::StrippedData;
use crate::graph::graph_add_edge;
use crate::graph::graph_add_node;
use crate::graph::graph_edge_count;
use crate::graph::graph_edge_endpoints;
use crate::graph::graph_edges;
use crate::graph::graph_new;
use crate::graph::graph_node_count;
use crate::graph::graph_node_weight;
use crate::graph::graph_nodes;
use crate::lattice::in_square;
use crate::lattice::is_on_outline;
use crate::lattice::on_outline;
use crate::lattice::Point2;
use crate::lattice::HALF;
use crate::lattice::NEG_HALF;
use crate::seqs::copy_of;
use crate::seqs::distinct;
use crate::seqs::first_from;
use crate::seqs::keep_where;
use crate::seqs::lemma_distinct;
use crate::seqs::lemma_distinct_step;
use crate::seqs::lemma_first_from;
use petgraph::graph::Graph;
use vstd::prelude::*;

verus! {

/// A directed edge, told by the positions of its source and target.
pub type Segment = (Point2, Point2);

/// The edges of a graph as pairs of positions.
pub open spec fn segments_of(nodes: Seq<Point2>, edges: Seq<(int, int)>) -> Seq<Segment> {
    Seq::new(edges.len(), |k: int| (nodes[edges[k].0], nodes[edges[k].1]))
}

/// The segment joins two different positions.
pub open spec fn proper() -> spec_fn(Segment) -> bool {
    |s: Segment| s.0 != s.1
}

pub open spec fn reversed(s: Segment) -> Segment {
    (s.1, s.0)
}

/// No edge of `edges` runs the other way along the segment.
pub open spec fn unpaired(edges: Seq<Segment>) -> spec_fn(Segment) -> bool {
    |s: Segment| !edges.contains(reversed(s))
}

/// The segment runs along one side of the square.
pub open spec fn along_outline(s: Segment) -> bool {
    ((s.0.0 == HALF || s.0.0 == -HALF) && s.0.0 == s.1.0) || ((s.0.1 == HALF || s.0.1 == -HALF)
        && s.0.1 == s.1.1)
}

/// Twice the signed area of the triangle from the centre over the segment.
pub open spec fn perp(s: Segment) -> int {
    s.0.0 * s.1.1 - s.0.1 * s.1.0
}

/// The segment runs along a side of the square with the centre on its left.
pub open spec fn turns_left(s: Segment) -> bool {
    along_outline(s) && perp(s) > 0
}

pub open spec fn not_turning_left() -> spec_fn(Segment) -> bool {
    |s: Segment| !turns_left(s)
}

pub open spec fn off_outline() -> spec_fn(Segment) -> bool {
    |s: Segment| !along_outline(s)
}

/// Some edge starts or ends at the position.
pub open spec fn touched(edges: Seq<Segment>) -> spec_fn(Point2) -> bool {
    |p: Point2| exists|k: int| 0 <= k < edges.len() && ((#[trigger] edges[k]).0 == p || edges[k].1 == p)
}

/// A boundary graph after merging and stripping.
pub ghost struct Stripped {
    /// The positions that are still nodes, each once.
    pub nodes: Seq<Point2>,
    /// The edges that do not run along the outline of the square.
    pub edges: Seq<Segment>,
    /// An edge along the outline with the centre on its left was dropped.
    pub ignored_left: bool,
    /// An edge along the outline with the centre on its right was dropped.
    pub ignored_right: bool,
}

/// Merging and stripping: nodes of equal position become one, so that
/// self-loops go and of several equal edges the first stays; both edges of
/// a slit go; edges along the outline with the centre on their left go, then
/// the nodes that no edge touches any more; last the remaining edges along
/// the outline go, while the nodes they leave behind stay.
pub open spec fn stripped(nodes: Seq<Point2>, edges: Seq<(int, int)>) -> Stripped {
    stripped_from(nodes, segments_of(nodes, edges))
}

/// `stripped`, with the edges given as pairs of positions.
pub open spec fn stripped_from(nodes: Seq<Point2>, segments: Seq<Segment>) -> Stripped {
    let merged = distinct(segments.filter(proper()));
    let open_edges = merged.filter(unpaired(merged));
    let kept = open_edges.filter(not_turning_left());
    Stripped {
        nodes: distinct(nodes).filter(touched(kept)),
        edges: kept.filter(off_outline()),
        ignored_left: kept.len() < open_edges.len(),
        ignored_right: kept.filter(off_outline()).len() < kept.len(),
    }
}

fn same_point(a: Point2, b: Point2) -> (r: bool)
    ensures
        r == (a == b),
{
    a.0 == b.0 && a.1 == b.1
}

fn same_segment(a: Segment, b: Segment) -> (r: bool)
    ensures
        r == (a == b),
{
    same_point(a.0, b.0) && same_point(a.1, b.1)
}

pub(crate) fn has_point(v: &Vec<Point2>, p: Point2) -> (r: bool)
    ensures
        r == v@.contains(p),
{
    let mut i: usize = 0;
    while i < v.len()
        invariant
            0 <= i <= v.len(),
            forall|k: int| 0 <= k < i ==> v[k] != p,
        decreases v.len() - i,
    {
        if same_point(v[i], p) {
            return true;
        }
        i += 1;
    }
    false
}

fn has_segment(v: &Vec<Segment>, s: Segment) -> (r: bool)
    ensures
        r == v@.contains(s),
{
    let mut i: usize = 0;
    while i < v.len()
        invariant
            0 <= i <= v.len(),
            forall|k: int| 0 <= k < i ==> v[k] != s,
        decreases v.len() - i,
    {
        if same_segment(v[i], s) {
            return true;
        }
        i += 1;
    }
    false
}

fn distinct_points(v: &Vec<Point2>) -> (r: Vec<Point2>)
    ensures
        r@ == distinct(v@),
        r.len() <= v.len(),
        r@.no_duplicates(),
        forall|x: Point2| r@.contains(x) <==> v@.contains(x),
{
    proof {
        lemma_distinct(v@);
    }
    let mut r: Vec<Point2> = Vec::new();
    let mut i: usize = 0;
    while i < v.len()
        invariant
            0 <= i <= v.len(),
            r@ == distinct(v@.take(i as int)),
        decreases v.len() - i,
    {
        proof {
            lemma_distinct_step(v@, i as int);
        }
        if !has_point(&r, v[i]) {
            r.push(v[i]);
        }
        i += 1;
    }
    proof {
        assert(v@.take(v.len() as int) =~= v@);
    }
    r
}

fn distinct_segments(v: &Vec<Segment>) -> (r: Vec<Segment>)
    ensures
        r@ == distinct(v@),
        r.len() <= v.len(),
        r@.no_duplicates(),
        forall|x: Segment| r@.contains(x) <==> v@.contains(x),
{
    proof {
        lemma_distinct(v@);
    }
    let mut r: Vec<Segment> = Vec::new();
    let mut i: usize = 0;
    while i < v.len()
        invariant
            0 <= i <= v.len(),
            r@ == distinct(v@.take(i as int)),
        decreases v.len() - i,
    {
        proof {
            lemma_distinct_step(v@, i as int);
        }
        if !has_segment(&r, v[i]) {
            r.push(v[i]);
        }
        i += 1;
    }
    proof {
        assert(v@.take(v.len() as int) =~= v@);
    }
    r
}

/// The node positions of a graph and its edges as pairs of positions.
fn read_graph(g: &Graph<(i64, i64), ()>) -> (r: (Vec<Point2>, Vec<Segment>))
    ensures
        r.0@ == graph_nodes(*g),
        r.1@ == segments_of(graph_nodes(*g), graph_edges(*g)),
        r.0.len() <= u32::MAX,
        r.1.len() <= u32::MAX,
        forall|k: int|
            0 <= k < r.1.len() ==> r.0@.contains((#[trigger] r.1[k]).0) && r.0@.contains(r.1[k].1),
{
    let n = graph_node_count(g);
    let mut nodes: Vec<Point2> = Vec::new();
    let mut i: usize = 0;
    while i < n
        invariant
            0 <= i <= n,
            n == graph_nodes(*g).len(),
            nodes@ == graph_nodes(*g).take(i as int),
        decreases n - i,
    {
        let w = graph_node_weight(g, i);
        nodes.push(w);
        proof {
            assert(graph_nodes(*g).take(i + 1) =~= graph_nodes(*g).take(i as int).push(w));
        }
        i += 1;
    }
    proof {
        assert(graph_nodes(*g).take(n as int) =~= graph_nodes(*g));
    }
    let m = graph_edge_count(g);
    let mut segments: Vec<Segment> = Vec::new();
    let mut k: usize = 0;
    while k < m
        invariant
            0 <= k <= m,
            m == graph_edges(*g).len(),
            nodes@ == graph_nodes(*g),
            segments@ == segments_of(graph_nodes(*g), graph_edges(*g)).take(k as int),
            forall|j: int|
                0 <= j < segments.len() ==> nodes@.contains((#[trigger] segments[j]).0)
                    && nodes@.contains(segments[j].1),
        decreases m - k,
    {
        let ends = graph_edge_endpoints(g, k);
        let s: Segment = (nodes[ends.0], nodes[ends.1]);
        segments.push(s);
        proof {
            assert(nodes@.contains(nodes[ends.0 as int]) && nodes@.contains(nodes[ends.1 as int]));
            let all = segments_of(graph_nodes(*g), graph_edges(*g));
            assert(all[k as int] == s);
            assert(all.take(k + 1) =~= all.take(k as int).push(s));
        }
        k += 1;
    }
    proof {
        let all = segments_of(graph_nodes(*g), graph_edges(*g));
        assert(all.take(m as int) =~= all);
    }
    (nodes, segments)
}

fn runs_along_outline(s: Segment) -> (r: bool)
    ensures
        r == along_outline(s),
{
    ((s.0.0 == HALF || s.0.0 == -HALF) && s.0.0 == s.1.0) || ((s.0.1 == HALF || s.0.1 == -HALF)
        && s.0.1 == s.1.1)
}

proof fn lemma_perp_along_side(s: Segment)
    ensures
        s.0.0 == s.1.0 && s.0.0 > 0 ==> (perp(s) > 0 <==> s.1.1 > s.0.1),
        s.0.0 == s.1.0 && s.0.0 < 0 ==> (perp(s) > 0 <==> s.1.1 < s.0.1),
        s.0.1 == s.1.1 && s.0.1 > 0 ==> (perp(s) > 0 <==> s.0.0 > s.1.0),
        s.0.1 == s.1.1 && s.0.1 < 0 ==> (perp(s) > 0 <==> s.0.0 < s.1.0),
{
    let (a, b, c, d) = (s.0.0 as int, s.0.1 as int, s.1.0 as int, s.1.1 as int);
    assert(a == c && a > 0 ==> (a * d - b * c > 0 <==> d > b)) by (nonlinear_arith);
    assert(a == c && a < 0 ==> (a * d - b * c > 0 <==> d < b)) by (nonlinear_arith);
    assert(b == d && b > 0 ==> (a * d - b * c > 0 <==> a > c)) by (nonlinear_arith);
    assert(b == d && b < 0 ==> (a * d - b * c > 0 <==> a < c)) by (nonlinear_arith);
}

fn does_turn_left(s: Segment) -> (r: bool)
    ensures
        r == turns_left(s),
{
    proof {
        lemma_perp_along_side(s);
    }
    if s.0.0 == s.1.0 && s.0.0 == HALF {
        s.1.1 > s.0.1
    } else if s.0.0 == s.1.0 && s.0.0 == -HALF {
        s.1.1 < s.0.1
    } else if s.0.1 == s.1.1 && s.0.1 == HALF {
        s.0.0 > s.1.0
    } else if s.0.1 == s.1.1 && s.0.1 == -HALF {
        s.0.0 < s.1.0
    } else {
        false
    }
}

fn is_touched(edges: &Vec<Segment>, p: Point2) -> (r: bool)
    ensures
        r == touched(edges@)(p),
{
    let mut i: usize = 0;
    while i < edges.len()
        invariant
            0 <= i <= edges.len(),
            forall|k: int| 0 <= k < i ==> (#[trigger] edges[k]).0 != p && edges[k].1 != p,
        decreases edges.len() - i,
    {
        if same_point(edges[i].0, p) || same_point(edges[i].1, p) {
            return true;
        }
        i += 1;
    }
    false
}

/// The segments between different positions, each once.
fn merge_segments(segments: &Vec<Segment>) -> (merged: Vec<Segment>)
    ensures
        merged@ == distinct(segments@.filter(proper())),
        merged.len() <= segments.len(),
        forall|k: int| 0 <= k < merged.len() ==> segments@.contains(#[trigger] merged[k]),
{
    let mut mask: Vec<bool> = Vec::new();
    let mut i: usize = 0;
    while i < segments.len()
        invariant
            0 <= i <= segments.len(),
            mask.len() == i,
            forall|k: int| 0 <= k < i ==> mask[k] == proper()(#[trigger] segments[k]),
        decreases segments.len() - i,
    {
        mask.push(!same_point(segments[i].0, segments[i].1));
        i += 1;
    }
    let proper_edges = keep_where(segments, &mask, Ghost(proper()));
    let merged = distinct_segments(&proper_edges);
    proof {
        assert forall|k: int| 0 <= k < merged.len() implies segments@.contains(
            #[trigger] merged[k],
        ) by {
            assert(merged@.contains(merged[k]));
            assert(proper_edges@.contains(merged[k]));
            let j = choose|j: int| 0 <= j < proper_edges.len() && proper_edges[j] == merged[k];
            assert(segments@.contains(proper_edges[j]));
        }
    }
    merged
}

fn strip(nodes: &Vec<Point2>, segments: &Vec<Segment>) -> (r: StrippedData)
    ensures
        r.model() == stripped_from(nodes@, segments@),
        r.nodes.len() <= nodes.len(),
        r.edges.len() <= segments.len(),
        r.nodes@.no_duplicates(),
        forall|k: int| 0 <= k < r.nodes.len() ==> nodes@.contains(#[trigger] r.nodes[k]),
        forall|k: int| 0 <= k < r.edges.len() ==> segments@.contains(#[trigger] r.edges[k]),
        forall|k: int|
            0 <= k < r.edges.len() && nodes@.contains((#[trigger] r.edges[k]).0) ==> r.nodes@.contains(
                r.edges[k].0,
            ),
        forall|k: int|
            0 <= k < r.edges.len() && nodes@.contains((#[trigger] r.edges[k]).1) ==> r.nodes@.contains(
                r.edges[k].1,
            ),
{
    let merged = merge_segments(segments);

    let mut mask: Vec<bool> = Vec::new();
    let mut i: usize = 0;
    while i < merged.len()
        invariant
            0 <= i <= merged.len(),
            mask.len() == i,
            forall|k: int| 0 <= k < i ==> mask[k] == unpaired(merged@)(#[trigger] merged[k]),
        decreases merged.len() - i,
    {
        let s = merged[i];
        mask.push(!has_segment(&merged, (s.1, s.0)));
        i += 1;
    }
    let open_edges = keep_where(&merged, &mask, Ghost(unpaired(merged@)));

    let mut mask: Vec<bool> = Vec::new();
    let mut i: usize = 0;
    while i < open_edges.len()
        invariant
            0 <= i <= open_edges.len(),
            mask.len() == i,
            forall|k: int| 0 <= k < i ==> mask[k] == not_turning_left()(#[trigger] open_edges[k]),
        decreases open_edges.len() - i,
    {
        mask.push(!does_turn_left(open_edges[i]));
        i += 1;
    }
    let kept = keep_where(&open_edges, &mask, Ghost(not_turning_left()));

    let all_nodes = distinct_points(nodes);
    let mut mask: Vec<bool> = Vec::new();
    let mut i: usize = 0;
    while i < all_nodes.len()
        invariant
            0 <= i <= all_nodes.len(),
            mask.len() == i,
            forall|k: int| 0 <= k < i ==> mask[k] == touched(kept@)(#[trigger] all_nodes[k]),
        decreases all_nodes.len() - i,
    {
        mask.push(is_touched(&kept, all_nodes[i]));
        i += 1;
    }
    let live_nodes = keep_where(&all_nodes, &mask, Ghost(touched(kept@)));

    let mut mask: Vec<bool> = Vec::new();
    let mut i: usize = 0;
    while i < kept.len()
        invariant
            0 <= i <= kept.len(),
            mask.len() == i,
            forall|k: int| 0 <= k < i ==> mask[k] == off_outline()(#[trigger] kept[k]),
        decreases kept.len() - i,
    {
        mask.push(!runs_along_outline(kept[i]));
        i += 1;
    }
    let inner = keep_where(&kept, &mask, Ghost(off_outline()));
    let ignored_left = kept.len() < open_edges.len();
    let ignored_right = inner.len() < kept.len();
    proof {
        assert forall|k: int, p: Point2|
            0 <= k < inner.len() && ((#[trigger] inner[k]).0 == p || inner[k].1 == p)
                && #[trigger] nodes@.contains(p) implies live_nodes@.contains(p) by {
            assert(kept@.contains(inner[k]));
            let j = choose|j: int| 0 <= j < kept.len() && kept[j] == inner[k];
            assert(touched(kept@)(p));
            assert(all_nodes@.contains(p));
            let i = choose|i: int| 0 <= i < all_nodes.len() && all_nodes[i] == p;
            assert(touched(kept@)(all_nodes[i]));
        }
    }
    StrippedData { nodes: live_nodes, edges: inner, ignored_left, ignored_right }
}

/// How far along the outline a point of the outline lies, going from the
/// corner `(-HALF, -HALF)` up the side `x = -HALF`, then along `y = HALF`,
/// down `x = HALF` and back along `y = -HALF`.
pub open spec fn perimeter_key(p: Point2) -> int {
    if p.0 == -HALF {
        HALF + p.1
    } else if p.1 == HALF {
        3 * HALF + p.0
    } else if p.0 == HALF {
        5 * HALF - p.1
    } else {
        7 * HALF - p.0
    }
}

/// The four corners, in the order of `perimeter_key`.
pub open spec fn corners() -> Seq<Point2> {
    seq![(NEG_HALF, NEG_HALF), (NEG_HALF, HALF), (HALF, HALF), (HALF, NEG_HALF)]
}

/// `s`, ordered by `perimeter_key`, with `p` put in its place unless a
/// point of the same key is there already.
pub open spec fn insert_by_key(s: Seq<Point2>, p: Point2) -> Seq<Point2>
    decreases s.len(),
{
    if s.len() == 0 {
        seq![p]
    } else if perimeter_key(s.last()) < perimeter_key(p) {
        s.push(p)
    } else if perimeter_key(s.last()) == perimeter_key(p) {
        s
    } else {
        insert_by_key(s.drop_last(), p).push(s.last())
    }
}

/// The corners and the nodes on the outline, each position once, in the
/// order of `perimeter_key`.
pub open spec fn outline_points(nodes: Seq<Point2>) -> Seq<Point2>
    decreases nodes.len(),
{
    if nodes.len() == 0 {
        corners()
    } else {
        let rest = outline_points(nodes.drop_last());
        if on_outline(nodes.last()) {
            insert_by_key(rest, nodes.last())
        } else {
            rest
        }
    }
}

/// The points lie on the outline of the square, in strictly rising order of
/// `perimeter_key`.
pub open spec fn outline_ordered(s: Seq<Point2>) -> bool {
    &&& forall|k: int| 0 <= k < s.len() ==> in_square(#[trigger] s[k]) && on_outline(s[k])
    &&& forall|a: int, b: int|
        0 <= a < b < s.len() ==> perimeter_key(#[trigger] s[a]) < perimeter_key(#[trigger] s[b])
}

/// On the outline, `perimeter_key` tells the points apart.
pub proof fn lemma_key_injective(p: Point2, q: Point2)
    requires
        in_square(p),
        on_outline(p),
        in_square(q),
        on_outline(q),
        perimeter_key(p) == perimeter_key(q),
    ensures
        p == q,
{
}

/// Inserting keeps the order and adds exactly the one point.
pub proof fn lemma_insert_by_key(s: Seq<Point2>, p: Point2)
    requires
        outline_ordered(s),
        in_square(p),
        on_outline(p),
    ensures
        outline_ordered(insert_by_key(s, p)),
        s.len() <= insert_by_key(s, p).len() <= s.len() + 1,
        forall|x: Point2| #[trigger] insert_by_key(s, p).contains(x) ==> s.contains(x) || x == p,
        forall|x: Point2| #[trigger] s.contains(x) ==> insert_by_key(s, p).contains(x),
        insert_by_key(s, p).contains(p),
    decreases s.len(),
{
    let r = insert_by_key(s, p);
    if s.len() == 0 {
        assert(r[0] == p);
    } else if perimeter_key(s.last()) < perimeter_key(p) {
        assert(r[s.len() as int] == p);
        assert forall|x: Point2| r.contains(x) implies (s.contains(x) || x == p) by {
            let i = choose|i: int| 0 <= i < r.len() && r[i] == x;
            if i < s.len() {
                assert(s[i] == x);
            }
        }
        assert forall|x: Point2| s.contains(x) implies r.contains(x) by {
            let i = choose|i: int| 0 <= i < s.len() && s[i] == x;
            assert(r[i] == x);
        }
    } else if perimeter_key(s.last()) == perimeter_key(p) {
        lemma_key_injective(s.last(), p);
        assert(s[s.len() - 1] == p);
    } else {
        let head = s.drop_last();
        lemma_insert_by_key(head, p);
        let mid = insert_by_key(head, p);
        assert forall|a: int, b: int| 0 <= a < b < r.len() implies perimeter_key(
            #[trigger] r[a],
        ) < perimeter_key(#[trigger] r[b]) by {
            if b == r.len() - 1 {
                assert(r[a] == mid[a]);
                assert(r[b] == s.last());
                assert(mid.contains(mid[a]));
                if mid[a] != p {
                    assert(head.contains(mid[a]) || mid[a] == p);
                    let i = choose|i: int| 0 <= i < head.len() && head[i] == mid[a];
                    assert(s[i] == mid[a]);
                    assert(s[s.len() - 1] == s.last());
                }
            } else {
                assert(mid[a] == r[a] && mid[b] == r[b]);
            }
        }
        assert forall|x: Point2| r.contains(x) implies (s.contains(x) || x == p) by {
            let i = choose|i: int| 0 <= i < r.len() && r[i] == x;
            if i < mid.len() {
                assert(mid[i] == x);
                assert(mid.contains(x));
                if x != p {
                    let j = choose|j: int| 0 <= j < head.len() && head[j] == x;
                    assert(s[j] == x);
                }
            } else {
                assert(s[s.len() - 1] == x);
            }
        }
        assert forall|x: Point2| (s.contains(x) || x == p) implies r.contains(x) by {
            if x == p {
                assert(mid.contains(p));
                let i = choose|i: int| 0 <= i < mid.len() && mid[i] == p;
                assert(r[i] == p);
            } else {
                let j = choose|j: int| 0 <= j < s.len() && s[j] == x;
                if j < head.len() {
                    assert(head[j] == x);
                    assert(head.contains(x));
                    assert(mid.contains(x));
                    let i = choose|i: int| 0 <= i < mid.len() && mid[i] == x;
                    assert(r[i] == x);
                } else {
                    assert(r[r.len() - 1] == x);
                }
            }
        }
        assert forall|k: int| 0 <= k < r.len() implies in_square(#[trigger] r[k]) && on_outline(
            r[k],
        ) by {
            if k < mid.len() {
                assert(mid[k] == r[k]);
            }
        }
    }
}

/// The outline points are the four corners and the nodes on the outline,
/// each once, in the order of `perimeter_key`.
pub proof fn lemma_outline_points(nodes: Seq<Point2>)
    requires
        forall|k: int| 0 <= k < nodes.len() ==> in_square(#[trigger] nodes[k]),
    ensures
        outline_ordered(outline_points(nodes)),
        4 <= outline_points(nodes).len() <= nodes.len() + 4,
        forall|x: Point2| #[trigger]
            outline_points(nodes).contains(x) ==> corners().contains(x) || (nodes.contains(x)
                && on_outline(x)),
        forall|x: Point2| #[trigger] corners().contains(x) ==> outline_points(nodes).contains(x),
        forall|x: Point2|
            #[trigger] nodes.contains(x) && on_outline(x) ==> outline_points(nodes).contains(x),
    decreases nodes.len(),
{
    if nodes.len() == 0 {
        let c = corners();
        assert(c[0] == (NEG_HALF, NEG_HALF) && c[1] == (NEG_HALF, HALF) && c[2] == (HALF, HALF)
            && c[3] == (HALF, NEG_HALF));
    } else {
        let head = nodes.drop_last();
        assert forall|k: int| 0 <= k < head.len() implies in_square(#[trigger] head[k]) by {
            assert(head[k] == nodes[k]);
        }
        lemma_outline_points(head);
        let rest = outline_points(head);
        let last = nodes.last();
        if on_outline(last) {
            lemma_insert_by_key(rest, last);
        }
        let r = outline_points(nodes);
        assert(nodes[nodes.len() - 1] == last);
        assert forall|x: Point2| r.contains(x) implies (corners().contains(x) || (nodes.contains(x)
            && on_outline(x))) by {
            if on_outline(last) && x == last {
                assert(nodes.contains(x));
            } else {
                assert(rest.contains(x));
                if !corners().contains(x) {
                    assert(head.contains(x) && on_outline(x));
                    let i = choose|i: int| 0 <= i < head.len() && head[i] == x;
                    assert(nodes[i] == x);
                }
            }
        }
        assert forall|x: Point2|
            (corners().contains(x) || (nodes.contains(x) && on_outline(x))) implies r.contains(
            x,
        ) by {
            if corners().contains(x) {
                assert(rest.contains(x));
            } else {
                let i = choose|i: int| 0 <= i < nodes.len() && nodes[i] == x;
                if i < head.len() {
                    assert(head[i] == x);
                    assert(head.contains(x));
                    assert(rest.contains(x));
                } else {
                    assert(x == last);
                }
            }
        }
    }
}

fn key_of(p: Point2) -> (k: i64)
    requires
        in_square(p),
    ensures
        k == perimeter_key(p),
{
    if p.0 == -HALF {
        HALF + p.1
    } else if p.1 == HALF {
        3 * HALF + p.0
    } else if p.0 == HALF {
        5 * HALF - p.1
    } else {
        7 * HALF - p.0
    }
}

fn insert_point(v: &mut Vec<Point2>, p: Point2)
    requires
        in_square(p),
        forall|k: int| 0 <= k < old(v).len() ==> in_square(#[trigger] old(v)[k]),
    ensures
        final(v)@ == insert_by_key(old(v)@, p),
    decreases old(v).len(),
{
    if v.len() == 0 {
        v.push(p);
        return ;
    }
    let last = v[v.len() - 1];
    let last_key = key_of(last);
    let key = key_of(p);
    if last_key < key {
        v.push(p);
    } else if last_key > key {
        let ghost before = v@;
        v.pop();
        assert(v@ == before.drop_last());
        insert_point(v, p);
        v.push(last);
    }
}

fn collect_outline(nodes: &Vec<Point2>) -> (points: Vec<Point2>)
    requires
        forall|k: int| 0 <= k < nodes.len() ==> in_square(#[trigger] nodes[k]),
    ensures
        points@ == outline_points(nodes@),
        4 <= points.len() <= nodes.len() + 4,
        outline_ordered(points@),
{
    let mut points: Vec<Point2> = Vec::new();
    points.push((NEG_HALF, NEG_HALF));
    points.push((NEG_HALF, HALF));
    points.push((HALF, HALF));
    points.push((HALF, NEG_HALF));
    assert(points@ =~= corners());
    assert(nodes@.take(0) =~= Seq::<Point2>::empty());
    let mut i: usize = 0;
    while i < nodes.len()
        invariant
            0 <= i <= nodes.len(),
            forall|k: int| 0 <= k < nodes.len() ==> in_square(#[trigger] nodes[k]),
            points@ == outline_points(nodes@.take(i as int)),
        decreases nodes.len() - i,
    {
        proof {
            assert(nodes@.take(i + 1).drop_last() =~= nodes@.take(i as int));
            assert(nodes@.take(i + 1).last() == nodes[i as int]);
            let head = nodes@.take(i as int);
            assert forall|k: int| 0 <= k < head.len() implies in_square(#[trigger] head[k]) by {
                assert(head[k] == nodes[k]);
            }
            lemma_outline_points(head);
        }
        if is_on_outline(nodes[i]) {
            insert_point(&mut points, nodes[i]);
        }
        i += 1;
    }
    proof {
        assert(nodes@.take(nodes.len() as int) =~= nodes@);
        lemma_outline_points(nodes@);
    }
    points
}

pub open spec fn found_at(s: Seq<Point2>, p: Point2) -> spec_fn(int) -> bool {
    |i: int| s[i] == p
}

/// The index of the first node at position `p`.
pub open spec fn position(s: Seq<Point2>, p: Point2) -> int {
    first_from(found_at(s, p), 0, s.len() as int)
}

/// `s`, with `p` added at the end unless it is there already.
pub open spec fn add_once(s: Seq<Point2>, p: Point2) -> Seq<Point2> {
    if s.contains(p) {
        s
    } else {
        s.push(p)
    }
}

/// The nodes, followed by the ends of the segments that are no node yet.
pub open spec fn with_ends(nodes: Seq<Point2>, segments: Seq<Segment>) -> Seq<Point2>
    decreases segments.len(),
{
    if segments.len() == 0 {
        nodes
    } else {
        add_once(
            add_once(with_ends(nodes, segments.drop_last()), segments.last().0),
            segments.last().1,
        )
    }
}

/// The segments as pairs of node indices.
pub open spec fn index_pairs(nodes: Seq<Point2>, segments: Seq<Segment>) -> Seq<(int, int)> {
    Seq::new(segments.len(), |k: int| (position(nodes, segments[k].0), position(nodes, segments[k].1)))
}

/// A directed cycle through the `n` nodes from index `base` on.
pub open spec fn ring(base: int, n: int) -> Seq<(int, int)> {
    Seq::new(
        n as nat,
        |k: int|
            (
                base + k,
                base + if k + 1 == n {
                    0
                } else {
                    k + 1
                },
            ),
    )
}

/// A boundary graph with the outline of the square drawn in.
pub ghost struct Closed {
    pub nodes: Seq<Point2>,
    pub edges: Seq<(int, int)>,
    /// The boundary told which part of the square is inside.
    pub decided: bool,
}

/// The stripped graph as it is.
pub open spec fn left_alone(st: Stripped, decided: bool) -> Closed {
    Closed { nodes: st.nodes, edges: index_pairs(st.nodes, st.edges), decided }
}

/// The boundary graph of a cube face, closed along the outline of the
/// square wherever the square is inside the mesh.
///
/// The graph is merged and stripped first. If nothing is left and only
/// edges along the outline with the centre on their left were dropped, the
/// square is outside. Else, if the walk around the square has a start, the
/// pieces of outline that it covers while inside are added, with a node for
/// each end that is none yet. Else, if edges are left, they bound holes or
/// islands: when they bound holes, every outline point gets a new node and
/// the whole outline is added through those. With no edge left and no
/// start, nothing is decided.
pub open spec fn closed_square(nodes: Seq<Point2>, edges: Seq<(int, int)>) -> Closed {
    let st = stripped(nodes, edges);
    let points = outline_points(st.nodes);
    if st.edges.len() == 0 && st.ignored_left && !st.ignored_right {
        left_alone(st, true)
    } else {
        match start_index(st, points) {
            Some(start) => {
                let added = walked(st, points, start, points.len());
                let all_nodes = with_ends(st.nodes, added);
                Closed {
                    nodes: all_nodes,
                    edges: index_pairs(all_nodes, st.edges + added),
                    decided: true,
                }
            },
            None => if st.edges.len() > 0 {
                if encloses(st) {
                    Closed {
                        nodes: st.nodes + points,
                        edges: index_pairs(st.nodes, st.edges) + ring(
                            st.nodes.len() as int,
                            points.len() as int,
                        ),
                        decided: true,
                    }
                } else {
                    left_alone(st, true)
                }
            } else {
                left_alone(st, false)
            },
        }
    }
}

fn index_of_point(v: &Vec<Point2>, p: Point2) -> (r: usize)
    requires
        v@.contains(p),
    ensures
        r < v.len(),
        r == position(v@, p),
{
    let mut i: usize = 0;
    while i < v.len()
        invariant
            0 <= i <= v.len(),
            v@.contains(p),
            forall|k: int| 0 <= k < i ==> !#[trigger] found_at(v@, p)(k),
        decreases v.len() - i,
    {
        if same_point(v[i], p) {
            proof {
                lemma_first_from(found_at(v@, p), 0, i as int, v.len() as int);
            }
            return i;
        }
        i += 1;
    }
    proof {
        let j = choose|j: int| 0 <= j < v.len() && v[j] == p;
        assert(found_at(v@, p)(j));
    }
    0
}

fn push_once(v: &mut Vec<Point2>, p: Point2)
    ensures
        final(v)@ == add_once(old(v)@, p),
        final(v)@.contains(p),
        final(v).len() <= old(v).len() + 1,
        forall|x: Point2| old(v)@.contains(x) ==> final(v)@.contains(x),
{
    if !has_point(v, p) {
        let ghost before = v@;
        v.push(p);
        proof {
            assert(v[v.len() - 1] == p);
            assert forall|x: Point2| before.contains(x) implies v@.contains(x) by {
                let j = choose|j: int| 0 <= j < before.len() && before[j] == x;
                assert(v[j] == x);
            }
        }
    }
}

/// The pairs of node indices of the segments.
fn to_index_pairs(nodes: &Vec<Point2>, segments: &Vec<Segment>) -> (r: Vec<(usize, usize)>)
    requires
        forall|k: int|
            0 <= k < segments.len() ==> nodes@.contains((#[trigger] segments[k]).0)
                && nodes@.contains(segments[k].1),
    ensures
        r.len() == segments.len(),
        forall|k: int|
            0 <= k < r.len() ==> (#[trigger] r[k]).0 < nodes.len() && r[k].1 < nodes.len() && (
                r[k].0 as int,
                r[k].1 as int,
            ) == index_pairs(nodes@, segments@)[k],
{
    let mut r: Vec<(usize, usize)> = Vec::new();
    let mut i: usize = 0;
    while i < segments.len()
        invariant
            0 <= i <= segments.len(),
            r.len() == i,
            forall|k: int|
                0 <= k < segments.len() ==> nodes@.contains((#[trigger] segments[k]).0)
                    && nodes@.contains(segments[k].1),
            forall|k: int|
                0 <= k < r.len() ==> (#[trigger] r[k]).0 < nodes.len() && r[k].1 < nodes.len() && (
                    r[k].0 as int,
                    r[k].1 as int,
                ) == index_pairs(nodes@, segments@)[k],
        decreases segments.len() - i,
    {
        let s = segments[i];
        let a = index_of_point(nodes, s.0);
        let b = index_of_point(nodes, s.1);
        r.push((a, b));
        i += 1;
    }
    r
}

/// Index pairs as a sequence of edges.
pub open spec fn as_edges(pairs: Seq<(usize, usize)>) -> Seq<(int, int)> {
    Seq::new(pairs.len(), |k: int| (pairs[k].0 as int, pairs[k].1 as int))
}

/// A graph with the given nodes and edges, in the given order.
pub(crate) fn build_graph(nodes: &Vec<Point2>, pairs: &Vec<(usize, usize)>) -> (g: Graph<(i64, i64), ()>)
    requires
        nodes.len() <= u32::MAX,
        pairs.len() <= u32::MAX,
        forall|k: int|
            0 <= k < pairs.len() ==> (#[trigger] pairs[k]).0 < nodes.len() && pairs[k].1
                < nodes.len(),
    ensures
        graph_nodes(g) == nodes@,
        graph_edges(g) == as_edges(pairs@),
{
    let mut g = graph_new();
    let mut i: usize = 0;
    while i < nodes.len()
        invariant
            0 <= i <= nodes.len(),
            nodes.len() <= u32::MAX,
            graph_nodes(g) == nodes@.take(i as int),
            graph_edges(g) == Seq::<(int, int)>::empty(),
        decreases nodes.len() - i,
    {
        graph_add_node(&mut g, nodes[i]);
        proof {
            assert(nodes@.take(i + 1) =~= nodes@.take(i as int).push(nodes[i as int]));
        }
        i += 1;
    }
    proof {
        assert(nodes@.take(nodes.len() as int) =~= nodes@);
    }
    let mut k: usize = 0;
    while k < pairs.len()
        invariant
            0 <= k <= pairs.len(),
            pairs.len() <= u32::MAX,
            forall|j: int|
                0 <= j < pairs.len() ==> (#[trigger] pairs[j]).0 < nodes.len() && pairs[j].1
                    < nodes.len(),
            graph_nodes(g) == nodes@,
            graph_edges(g) == as_edges(pairs@).take(k as int),
        decreases pairs.len() - k,
    {
        let e = pairs[k];
        graph_add_edge(&mut g, e.0, e.1);
        proof {
            assert(as_edges(pairs@).take(k + 1) =~= as_edges(pairs@).take(k as int).push(
                (e.0 as int, e.1 as int),
            ));
        }
        k += 1;
    }
    proof {
        assert(as_edges(pairs@).take(pairs.len() as int) =~= as_edges(pairs@));
    }
    g
}

/// The nodes, followed by the ends of the segments that are no node yet.
fn add_ends(nodes: &Vec<Point2>, segments: &Vec<Segment>) -> (r: Vec<Point2>)
    requires
        nodes.len() + 2 * segments.len() <= usize::MAX,
    ensures
        r@ == with_ends(nodes@, segments@),
        r.len() <= nodes.len() + 2 * segments.len(),
        forall|x: Point2| nodes@.contains(x) ==> r@.contains(x),
        forall|k: int|
            0 <= k < segments.len() ==> r@.contains((#[trigger] segments[k]).0) && r@.contains(
                segments[k].1,
            ),
{
    let mut r: Vec<Point2> = copy_of(nodes);
    let mut i: usize = 0;
    assert(segments@.take(0) =~= Seq::<Segment>::empty());
    while i < segments.len()
        invariant
            0 <= i <= segments.len(),
            r@ == with_ends(nodes@, segments@.take(i as int)),
            r.len() <= nodes.len() + 2 * i,
            forall|x: Point2| nodes@.contains(x) ==> r@.contains(x),
            forall|k: int|
                0 <= k < i ==> r@.contains((#[trigger] segments[k]).0) && r@.contains(
                    segments[k].1,
                ),
        decreases segments.len() - i,
    {
        proof {
            assert(segments@.take(i + 1).drop_last() =~= segments@.take(i as int));
            assert(segments@.take(i + 1).last() == segments[i as int]);
        }
        push_once(&mut r, segments[i].0);
        push_once(&mut r, segments[i].1);
        i += 1;
    }
    proof {
        assert(segments@.take(segments.len() as int) =~= segments@);
    }
    r
}

/// Closes the boundary graph of a cube face along the outline of the
/// centred unit square, and tells whether the boundary decided which part
/// of the square is inside the mesh. When it did not, the graph is left
/// merged and stripped, and the mesh around the face has to decide.
pub fn intersect_center_unit_square_on_graph(boundary: &mut Graph<(i64, i64), ()>) -> (decided:
    bool)
    requires
        graph_nodes(*old(boundary)).len() <= 1_000_000_000,
        graph_edges(*old(boundary)).len() <= 1_000_000_000,
        forall|k: int|
            0 <= k < graph_nodes(*old(boundary)).len() ==> in_square(
                #[trigger] graph_nodes(*old(boundary))[k],
            ),
    ensures
        graph_nodes(*final(boundary)) == closed_square(
            graph_nodes(*old(boundary)),
            graph_edges(*old(boundary)),
        ).nodes,
        graph_edges(*final(boundary)) == closed_square(
            graph_nodes(*old(boundary)),
            graph_edges(*old(boundary)),
        ).edges,
        decided == closed_square(
            graph_nodes(*old(boundary)),
            graph_edges(*old(boundary)),
        ).decided,
        graph_nodes(*final(boundary)).len() <= 3 * graph_nodes(*old(boundary)).len() + 8,
        graph_edges(*final(boundary)).len() <= graph_edges(*old(boundary)).len() + graph_nodes(
            *old(boundary),
        ).len() + 4,
{
    let (nodes, segments) = read_graph(boundary);
    let st = strip(&nodes, &segments);
    proof {
        assert forall|k: int| 0 <= k < st.edges.len() implies crate::closing::segment_in_square(
            #[trigger] st.edges[k],
        ) && st.nodes@.contains(st.edges[k].0) && st.nodes@.contains(st.edges[k].1) by {
            assert(segments@.contains(st.edges[k]));
            let j = choose|j: int| 0 <= j < segments.len() && segments[j] == st.edges[k];
            assert(nodes@.contains(segments[j].0) && nodes@.contains(segments[j].1));
        }
        assert forall|k: int| 0 <= k < st.nodes.len() implies in_square(#[trigger] st.nodes[k]) by {
            assert(nodes@.contains(st.nodes[k]));
        }
    }
    if st.edges.len() == 0 && st.ignored_left && !st.ignored_right {
        let pairs = to_index_pairs(&st.nodes, &st.edges);
        *boundary = build_graph(&st.nodes, &pairs);
        proof {
            assert(as_edges(pairs@) =~= index_pairs(st.nodes@, st.edges@));
        }
        return true;
    }
    let points = collect_outline(&st.nodes);
    match find_start(&st, &points) {
        Some(start) => {
            let added = walk(&st, &points, start);
            let all_nodes = add_ends(&st.nodes, &added);
            let mut all_edges = copy_of(&st.edges);
            assert(st.edges@ + added@.take(0) =~= st.edges@);
            let mut i: usize = 0;
            while i < added.len()
                invariant
                    0 <= i <= added.len(),
                    added.len() <= points.len(),
                    st.edges.len() <= 1_000_000_000,
                    points.len() <= 1_000_000_004,
                    all_edges@ == st.edges@ + added@.take(i as int),
                decreases added.len() - i,
            {
                all_edges.push(added[i]);
                proof {
                    assert(added@.take(i + 1) =~= added@.take(i as int).push(added[i as int]));
                    assert(st.edges@ + added@.take(i + 1) =~= (st.edges@ + added@.take(
                        i as int,
                    )).push(added[i as int]));
                }
                i += 1;
            }
            proof {
                assert(added@.take(added.len() as int) =~= added@);
                assert forall|k: int| 0 <= k < all_edges.len() implies all_nodes@.contains(
                    (#[trigger] all_edges[k]).0,
                ) && all_nodes@.contains(all_edges[k].1) by {
                    if k < st.edges.len() {
                        assert(all_edges[k] == st.edges[k]);
                    } else {
                        assert(all_edges[k] == added[k - st.edges.len()]);
                    }
                }
            }
            let pairs = to_index_pairs(&all_nodes, &all_edges);
            *boundary = build_graph(&all_nodes, &pairs);
            proof {
                assert(as_edges(pairs@) =~= index_pairs(all_nodes@, all_edges@));
            }
            true
        },
        None => {
            let some_edges = st.edges.len() > 0;
            if some_edges && does_enclose(&st) {
                let base = st.nodes.len();
                let n = points.len();
                let mut pairs = to_index_pairs(&st.nodes, &st.edges);
                let ghost inner = as_edges(pairs@);
                assert(inner =~= index_pairs(st.nodes@, st.edges@));
                let mut all_nodes = copy_of(&st.nodes);
                assert(st.nodes@ + points@.take(0) =~= st.nodes@);
                assert(inner + ring(base as int, n as int).take(0) =~= inner);
                let mut k: usize = 0;
                while k < n
                    invariant
                        0 <= k <= n,
                        n == points.len(),
                        base == st.nodes.len(),
                        base <= 1_000_000_000,
                        n <= 1_000_000_004,
                        pairs.len() == st.edges.len() + k,
                        st.edges.len() <= 1_000_000_000,
                        all_nodes@ == st.nodes@ + points@.take(k as int),
                        as_edges(pairs@) == inner + ring(base as int, n as int).take(k as int),
                        forall|j: int|
                            0 <= j < pairs.len() ==> (#[trigger] pairs[j]).0 < base + n
                                && pairs[j].1 < base + n,
                    decreases n - k,
                {
                    let next: usize = if k + 1 == n {
                        0
                    } else {
                        k + 1
                    };
                    let ghost before = pairs@;
                    all_nodes.push(points[k]);
                    pairs.push((base + k, base + next));
                    proof {
                        assert(points@.take(k + 1) =~= points@.take(k as int).push(points[k as int]));
                        assert(st.nodes@ + points@.take(k + 1) =~= (st.nodes@ + points@.take(
                            k as int,
                        )).push(points[k as int]));
                        let r = ring(base as int, n as int);
                        assert(r.take(k + 1) =~= r.take(k as int).push(r[k as int]));
                        assert(as_edges(pairs@) =~= as_edges(before).push(r[k as int]));
                        assert(inner + r.take(k + 1) =~= (inner + r.take(k as int)).push(
                            r[k as int],
                        ));
                    }
                    k += 1;
                }
                proof {
                    assert(points@.take(n as int) =~= points@);
                    let r = ring(base as int, n as int);
                    assert(r.take(n as int) =~= r);
                }
                *boundary = build_graph(&all_nodes, &pairs);
                true
            } else {
                let pairs = to_index_pairs(&st.nodes, &st.edges);
                *boundary = build_graph(&st.nodes, &pairs);
                proof {
                    assert(as_edges(pairs@) =~= index_pairs(st.nodes@, st.edges@));
                }
                some_edges
            }
        },
    }
}

/// The graph in which nodes of equal position are one node: the positions
/// in order of first occurrence, and between them the edges of the given
/// graph without self-loops, of several equal ones the first.
pub fn combine_equal_vertices(boundary: &Graph<(i64, i64), ()>) -> (merged: Graph<(i64, i64), ()>)
    ensures
        graph_nodes(merged) == distinct(graph_nodes(*boundary)),
        graph_edges(merged) == index_pairs(
            distinct(graph_nodes(*boundary)),
            distinct(
                segments_of(graph_nodes(*boundary), graph_edges(*boundary)).filter(proper()),
            ),
        ),
{
    let (nodes, segments) = read_graph(boundary);
    let merged_nodes = distinct_points(&nodes);
    let merged_edges = merge_segments(&segments);
    proof {
        assert forall|k: int| 0 <= k < merged_edges.len() implies merged_nodes@.contains(
            (#[trigger] merged_edges[k]).0,
        ) && merged_nodes@.contains(merged_edges[k].1) by {
            assert(segments@.contains(merged_edges[k]));
            let j = choose|j: int| 0 <= j < segments.len() && segments[j] == merged_edges[k];
            assert(nodes@.contains(segments[j].0) && nodes@.contains(segments[j].1));
        }
    }
    let pairs = to_index_pairs(&merged_nodes, &merged_edges);
    proof {
        assert(as_edges(pairs@) =~= index_pairs(merged_nodes@, merged_edges@));
    }
    build_graph(&merged_nodes, &pairs)
}

} // verus!
