//! A manifold mesh from a triangle soup: corners at one position are joined
//! into one vertex where their triangles are neighbours across an edge.
//!
//! The triangles around one geometric edge are ordered by their angle
//! around it, and each triangle that runs against the edge is paired with
//! the next one that runs along it. All angles are compared exactly.

use crate::fans::is_chain;
use crate::fans::lemma_chain_is_joined;
use crate::fans::two_sided;
use crate::lattice::Point3;
use crate::material_mesh::MaterialID;
use crate::material_mesh::MaterialMesh;
use crate::seqs::first_from;
use crate::seqs::lemma_first_from;
use crate::unionfind::set_labels;
use crate::unionfind::sets_into_labeling;
use crate::unionfind::sets_new;
use crate::unionfind::sets_union;
use petgraph::unionfind::UnionFind;
use vstd::prelude::*;

verus! {

/// Largest coordinate magnitude of a soup: ten world units.
pub const SOUP_MAX: i64 = 10_000_000;

pub open spec fn point_ok(p: Point3) -> bool {
    &&& -SOUP_MAX <= p.0 <= SOUP_MAX
    &&& -SOUP_MAX <= p.1 <= SOUP_MAX
    &&& -SOUP_MAX <= p.2 <= SOUP_MAX
}

/// The soup holds whole triangles, with every coordinate within `SOUP_MAX`.
pub open spec fn soup_ok(soup: Seq<Point3>) -> bool {
    &&& soup.len() % 3 == 0
    &&& forall|k: int| 0 <= k < soup.len() ==> point_ok(#[trigger] soup[k])
}

/// The corner after corner `i` in its triangle.
pub open spec fn next_corner(i: int) -> int {
    i - i % 3 + (i % 3 + 1) % 3
}

/// The corner of the triangle of `i` that is not on the edge that starts
/// at `i`.
pub open spec fn third_corner(i: int) -> int {
    i - i % 3 + (i % 3 + 2) % 3
}

pub open spec fn minus(a: Point3, b: Point3) -> (int, int, int) {
    (a.0 - b.0, a.1 - b.1, a.2 - b.2)
}

pub open spec fn dot3(a: (int, int, int), b: (int, int, int)) -> int {
    a.0 * b.0 + a.1 * b.1 + a.2 * b.2
}

pub open spec fn cross3(a: (int, int, int), b: (int, int, int)) -> (int, int, int) {
    (a.1 * b.2 - a.2 * b.1, a.2 * b.0 - a.0 * b.2, a.0 * b.1 - a.1 * b.0)
}

/// A vector across the direction `d`: `d` crossed with the second axis
/// where the cosine between `d` and the first axis is above 0.9 in
/// magnitude, else `d` crossed with the first axis.
pub open spec fn across(d: (int, int, int)) -> (int, int, int) {
    if 100 * (d.0 * d.0) > 81 * dot3(d, d) {
        cross3(d, (0, 1, 0))
    } else {
        cross3(d, (1, 0, 0))
    }
}

/// Where the triangle of corner `j` stands around the edge that starts at
/// corner `g`: a vector in the plane across the edge, whose first part
/// lies along `across` and whose angle is the angle of the triangle.
pub open spec fn turn_of(soup: Seq<Point3>, g: int, j: int) -> (int, int) {
    let d = minus(soup[next_corner(g)], soup[g]);
    let v = minus(soup[third_corner(j)], soup[g]);
    (dot3(across(d), v), dot3(cross3(across(d), v), d))
}

/// The quarter of the range of angles from minus a half turn (left out) to
/// a half turn in which the angle of `a` lies: below zero, zero, above
/// zero, a half turn.
pub open spec fn sector(a: (int, int)) -> int {
    if a.1 < 0 {
        0
    } else if a.1 == 0 && a.0 >= 0 {
        1
    } else if a.1 > 0 {
        2
    } else {
        3
    }
}

/// The angle of `a` is below the angle of `b`.
pub open spec fn angle_less(a: (int, int), b: (int, int)) -> bool {
    sector(a) < sector(b) || (sector(a) == sector(b) && a.1 != 0 && a.0 * b.1 - a.1 * b.0 > 0)
}

/// A triangle at an edge: the corner at which its side along the edge
/// starts, whether that side runs along the edge or against it, and where
/// the triangle stands around the edge.
#[derive(Clone, Copy, Debug)]
pub struct Entry {
    pub corner: usize,
    pub forward: bool,
    pub along: i128,
    pub aside: i128,
}

impl Entry {
    pub open spec fn turn(self) -> (int, int) {
        (self.along as int, self.aside as int)
    }
}

/// `a` comes before `b` around the edge: at a lower angle, or at the same
/// angle and running along the edge while `b` runs against it.
pub open spec fn entry_less(a: Entry, b: Entry) -> bool {
    angle_less(a.turn(), b.turn()) || (!angle_less(b.turn(), a.turn()) && a.forward && !b.forward)
}

/// `s`, in order, with `e` put behind every entry that does not come
/// after it.
pub open spec fn insert_entry(s: Seq<Entry>, e: Entry) -> Seq<Entry>
    decreases s.len(),
{
    if s.len() == 0 {
        seq![e]
    } else if entry_less(e, s.last()) {
        insert_entry(s.drop_last(), e).push(s.last())
    } else {
        s.push(e)
    }
}

/// The entries in the order around the edge; entries that stand alike
/// keep their order.
pub open spec fn sorted_entries(s: Seq<Entry>) -> Seq<Entry>
    decreases s.len(),
{
    if s.len() == 0 {
        s
    } else {
        insert_entry(sorted_entries(s.drop_last()), s.last())
    }
}

/// The side that starts at `j` runs from and to the same positions as the
/// side that starts at `g`.
pub open spec fn same_edge(soup: Seq<Point3>, j: int, g: int) -> bool {
    soup[j] == soup[g] && soup[next_corner(j)] == soup[next_corner(g)]
}

/// The side that starts at `j` runs between the same two different
/// positions as the side that starts at `g`, the other way.
pub open spec fn against_edge(soup: Seq<Point3>, j: int, g: int) -> bool {
    soup[g] != soup[next_corner(g)] && soup[j] == soup[next_corner(g)] && soup[next_corner(j)]
        == soup[g]
}

pub open spec fn entry_at(soup: Seq<Point3>, g: int, j: int, forward: bool) -> Entry {
    Entry {
        corner: j as usize,
        forward,
        along: turn_of(soup, g, j).0 as i128,
        aside: turn_of(soup, g, j).1 as i128,
    }
}

/// The triangles among the first `k` corners whose side runs along the
/// edge that starts at `g`.
pub open spec fn forward_entries(soup: Seq<Point3>, g: int, k: nat) -> Seq<Entry>
    decreases k,
{
    if k == 0 {
        Seq::empty()
    } else {
        let before = forward_entries(soup, g, (k - 1) as nat);
        if same_edge(soup, k - 1, g) {
            before.push(entry_at(soup, g, k - 1, true))
        } else {
            before
        }
    }
}

/// The triangles among the first `k` corners whose side runs against the
/// edge that starts at `g`.
pub open spec fn inverse_entries(soup: Seq<Point3>, g: int, k: nat) -> Seq<Entry>
    decreases k,
{
    if k == 0 {
        Seq::empty()
    } else {
        let before = inverse_entries(soup, g, (k - 1) as nat);
        if against_edge(soup, k - 1, g) {
            before.push(entry_at(soup, g, k - 1, false))
        } else {
            before
        }
    }
}

/// The triangles at the edge that starts at `g`, in the order around it.
pub open spec fn edge_fan(soup: Seq<Point3>, g: int) -> Seq<Entry> {
    sorted_entries(forward_entries(soup, g, soup.len()) + inverse_entries(soup, g, soup.len()))
}

pub open spec fn is_inverse(list: Seq<Entry>) -> spec_fn(int) -> bool {
    |i: int| !list[i].forward
}

/// Index `i` on a cycle of `n` entries, for `0 <= i < 2 * n`.
pub open spec fn cyclic(i: int, n: int) -> int {
    if i >= n {
        i - n
    } else {
        i
    }
}

pub open spec fn forward_behind(list: Seq<Entry>, a: int) -> spec_fn(int) -> bool {
    |k: int| list[cyclic(a + k, list.len() as int)].forward
}

/// The pairs of neighbours across the edge, as (corner of the triangle
/// against the edge, corner of the triangle along it): the first entry
/// against the edge goes with the next entry along it, around the edge and
/// past the end of the list; the two leave the list and the rest is paired
/// likewise, until one kind runs out.
pub open spec fn pairs_of(list: Seq<Entry>) -> Seq<(int, int)>
    decreases list.len(),
{
    let n = list.len() as int;
    let a = first_from(is_inverse(list), 0, n);
    let k = first_from(forward_behind(list, a), 1, n);
    if a >= n || k >= n || a < 0 || k < 1 {
        Seq::empty()
    } else {
        let b = cyclic(a + k, n);
        let rest = if a < b {
            list.remove(b).remove(a)
        } else {
            list.remove(a).remove(b)
        };
        seq![(list[a].corner as int, list[b].corner as int)] + pairs_of(rest)
    }
}

/// The corners that become one vertex when the pairs are neighbours: the
/// start of each side is the end of the other.
pub open spec fn links_of(pairs: Seq<(int, int)>) -> Seq<(int, int)>
    decreases pairs.len(),
{
    if pairs.len() == 0 {
        Seq::empty()
    } else {
        links_of(pairs.drop_last()).push((pairs.last().0, next_corner(pairs.last().1))).push(
            (next_corner(pairs.last().0), pairs.last().1),
        )
    }
}

/// No earlier side runs along or against the side that starts at `g`.
pub open spec fn leads(soup: Seq<Point3>, g: int) -> bool {
    forall|j: int| 0 <= j < g ==> !same_edge(soup, j, g) && !against_edge(soup, j, g)
}

/// The links across all edges whose first side starts at a corner below `k`.
pub open spec fn soup_links(soup: Seq<Point3>, k: nat) -> Seq<(int, int)>
    decreases k,
{
    if k == 0 {
        Seq::empty()
    } else if leads(soup, k - 1) {
        soup_links(soup, (k - 1) as nat) + links_of(pairs_of(edge_fan(soup, k - 1)))
    } else {
        soup_links(soup, (k - 1) as nat)
    }
}

/// The labels when the sets of `a` and `b` become one.
pub open spec fn joined(labels: Seq<int>, a: int, b: int) -> Seq<int> {
    Seq::new(
        labels.len(),
        |i: int|
            if labels[i] == labels[b] {
                labels[a]
            } else {
                labels[i]
            },
    )
}

/// A label for each corner, the same for two corners exactly when a chain
/// of links joins them.
pub open spec fn labels_after(n: nat, links: Seq<(int, int)>) -> Seq<int>
    decreases links.len(),
{
    if links.len() == 0 {
        Seq::new(n, |i: int| i)
    } else {
        joined(labels_after(n, links.drop_last()), links.last().0, links.last().1)
    }
}

/// A label for each corner of the soup, the same for two corners exactly
/// when they are one vertex of the mesh.
pub open spec fn vertex_labels(soup: Seq<Point3>) -> Seq<int> {
    labels_after(soup.len(), soup_links(soup, soup.len()))
}

fn next_of(i: usize, n: usize) -> (r: usize)
    requires
        i < n,
        n % 3 == 0,
    ensures
        r == next_corner(i as int),
        r < n,
        r / 3 == i / 3,
        r != i,
{
    i - i % 3 + (i % 3 + 1) % 3
}

fn third_of(i: usize, n: usize) -> (r: usize)
    requires
        i < n,
        n % 3 == 0,
    ensures
        r == third_corner(i as int),
        r < n,
{
    i - i % 3 + (i % 3 + 2) % 3
}

fn same_position(a: Point3, b: Point3) -> (r: bool)
    ensures
        r == (a == b),
{
    a.0 == b.0 && a.1 == b.1 && a.2 == b.2
}

fn is_same_edge(soup: &Vec<Point3>, j: usize, g: usize) -> (r: bool)
    requires
        j < soup.len(),
        g < soup.len(),
        soup.len() % 3 == 0,
    ensures
        r == same_edge(soup@, j as int, g as int),
{
    let n = soup.len();
    same_position(soup[j], soup[g]) && same_position(soup[next_of(j, n)], soup[next_of(g, n)])
}

fn is_against_edge(soup: &Vec<Point3>, j: usize, g: usize) -> (r: bool)
    requires
        j < soup.len(),
        g < soup.len(),
        soup.len() % 3 == 0,
    ensures
        r == against_edge(soup@, j as int, g as int),
{
    let n = soup.len();
    !same_position(soup[g], soup[next_of(g, n)]) && same_position(soup[j], soup[next_of(g, n)])
        && same_position(soup[next_of(j, n)], soup[g])
}

proof fn lemma_product_bound(a: int, b: int, x: int, y: int)
    requires
        -x <= a <= x,
        -y <= b <= y,
    ensures
        -(x * y) <= a * b <= x * y,
{
    assert(-(x * y) <= a * b <= x * y) by (nonlinear_arith)
        requires
            -x <= a <= x,
            -y <= b <= y,
    ;
}

/// Where the triangle of corner `j` stands around the edge that starts at
/// corner `g`.
fn turn(soup: &Vec<Point3>, g: usize, j: usize) -> (r: (i128, i128))
    requires
        soup_ok(soup@),
        g < soup.len(),
        j < soup.len(),
    ensures
        (r.0 as int, r.1 as int) == turn_of(soup@, g as int, j as int),
        -800_000_000_000_000 <= r.0 <= 800_000_000_000_000,
        -48_000_000_000_000_000_000_000 <= r.1 <= 48_000_000_000_000_000_000_000,
{
    let n = soup.len();
    let e0 = soup[g];
    let e1 = soup[next_of(g, n)];
    let far = soup[third_of(j, n)];
    let dx: i128 = (e1.0 - e0.0) as i128;
    let dy: i128 = (e1.1 - e0.1) as i128;
    let dz: i128 = (e1.2 - e0.2) as i128;
    let vx: i128 = (far.0 - e0.0) as i128;
    let vy: i128 = (far.1 - e0.1) as i128;
    let vz: i128 = (far.2 - e0.2) as i128;
    let ghost m: int = 20_000_000;
    proof {
        lemma_product_bound(dx as int, dx as int, m, m);
        lemma_product_bound(dy as int, dy as int, m, m);
        lemma_product_bound(dz as int, dz as int, m, m);
    }
    let steep = 100 * (dx * dx) > 81 * (dx * dx + dy * dy + dz * dz);
    let px: i128 = if steep {
        -dz
    } else {
        0
    };
    let py: i128 = if steep {
        0
    } else {
        dz
    };
    let pz: i128 = if steep {
        dx
    } else {
        -dy
    };
    proof {
        let d = (dx as int, dy as int, dz as int);
        assert(minus(soup[next_corner(g as int)], soup[g as int]) == d);
        assert(across(d) == (px as int, py as int, pz as int)) by {
            assert(cross3(d, (0, 1, 0)) == (-d.2, 0int, d.0)) by (nonlinear_arith);
            assert(cross3(d, (1, 0, 0)) == (0int, d.2, -d.1)) by (nonlinear_arith);
        }
        lemma_product_bound(px as int, vx as int, m, m);
        lemma_product_bound(py as int, vy as int, m, m);
        lemma_product_bound(pz as int, vz as int, m, m);
        lemma_product_bound(py as int, vz as int, m, m);
        lemma_product_bound(pz as int, vy as int, m, m);
        lemma_product_bound(pz as int, vx as int, m, m);
        lemma_product_bound(px as int, vz as int, m, m);
        lemma_product_bound(px as int, vy as int, m, m);
        lemma_product_bound(py as int, vx as int, m, m);
    }
    let along: i128 = px * vx + py * vy + pz * vz;
    let wx: i128 = py * vz - pz * vy;
    let wy: i128 = pz * vx - px * vz;
    let wz: i128 = px * vy - py * vx;
    proof {
        let w: int = 800_000_000_000_000;
        lemma_product_bound(wx as int, dx as int, w, m);
        lemma_product_bound(wy as int, dy as int, w, m);
        lemma_product_bound(wz as int, dz as int, w, m);
    }
    let aside: i128 = wx * dx + wy * dy + wz * dz;
    (along, aside)
}

fn sector_of(along: i128, aside: i128) -> (r: u8)
    ensures
        r == sector((along as int, aside as int)),
{
    if aside < 0 {
        0
    } else if aside == 0 && along >= 0 {
        1
    } else if aside > 0 {
        2
    } else {
        3
    }
}

/// The entry stands within the bounds of `turn`.
pub open spec fn entry_ok(e: Entry) -> bool {
    &&& -800_000_000_000_000 <= e.along <= 800_000_000_000_000
    &&& -48_000_000_000_000_000_000_000 <= e.aside <= 48_000_000_000_000_000_000_000
}

fn is_angle_less(a: &Entry, b: &Entry) -> (r: bool)
    requires
        entry_ok(*a),
        entry_ok(*b),
    ensures
        r == angle_less(a.turn(), b.turn()),
{
    let sa = sector_of(a.along, a.aside);
    let sb = sector_of(b.along, b.aside);
    if sa != sb {
        sa < sb
    } else if a.aside == 0 {
        false
    } else {
        proof {
            lemma_product_bound(
                a.along as int,
                b.aside as int,
                800_000_000_000_000,
                48_000_000_000_000_000_000_000,
            );
            lemma_product_bound(
                a.aside as int,
                b.along as int,
                48_000_000_000_000_000_000_000,
                800_000_000_000_000,
            );
        }
        a.along * b.aside - a.aside * b.along > 0
    }
}

fn is_entry_less(a: &Entry, b: &Entry) -> (r: bool)
    requires
        entry_ok(*a),
        entry_ok(*b),
    ensures
        r == entry_less(*a, *b),
{
    is_angle_less(a, b) || (!is_angle_less(b, a) && a.forward && !b.forward)
}

/// Every entry stands within the bounds of `turn`, at a corner of the soup
/// whose side runs along or against the side that starts at `g` as the
/// entry says.
pub open spec fn entries_ok(list: Seq<Entry>, soup: Seq<Point3>, g: int) -> bool {
    forall|k: int|
        0 <= k < list.len() ==> {
            &&& entry_ok(#[trigger] list[k])
            &&& list[k].corner < soup.len()
            &&& list[k].forward ==> same_edge(soup, list[k].corner as int, g)
            &&& !list[k].forward ==> against_edge(soup, list[k].corner as int, g)
        }
}

/// The triangles at the edge that starts at `g`: first those along it,
/// then those against it, each kind in the order of the soup.
fn gather(soup: &Vec<Point3>, g: usize) -> (r: Vec<Entry>)
    requires
        soup_ok(soup@),
        g < soup.len(),
    ensures
        r@ == forward_entries(soup@, g as int, soup.len() as nat) + inverse_entries(
            soup@,
            g as int,
            soup.len() as nat,
        ),
        entries_ok(r@, soup@, g as int),
{
    let n = soup.len();
    let mut r: Vec<Entry> = Vec::new();
    let mut j: usize = 0;
    while j < n
        invariant
            0 <= j <= n,
            n == soup.len(),
            g < n,
            soup_ok(soup@),
            r@ == forward_entries(soup@, g as int, j as nat),
            entries_ok(r@, soup@, g as int),
        decreases n - j,
    {
        if is_same_edge(soup, j, g) {
            let t = turn(soup, g, j);
            r.push(Entry { corner: j, forward: true, along: t.0, aside: t.1 });
        }
        j += 1;
    }
    let ghost ahead = r@;
    let mut j: usize = 0;
    assert(ahead + inverse_entries(soup@, g as int, 0) =~= ahead);
    while j < n
        invariant
            0 <= j <= n,
            n == soup.len(),
            g < n,
            soup_ok(soup@),
            r@ == ahead + inverse_entries(soup@, g as int, j as nat),
            entries_ok(r@, soup@, g as int),
        decreases n - j,
    {
        if is_against_edge(soup, j, g) {
            let t = turn(soup, g, j);
            let e = Entry { corner: j, forward: false, along: t.0, aside: t.1 };
            r.push(e);
            assert(ahead + inverse_entries(soup@, g as int, j as nat).push(e) =~= (ahead
                + inverse_entries(soup@, g as int, j as nat)).push(e));
        }
        j += 1;
    }
    r
}

fn insert_sorted(v: &mut Vec<Entry>, e: Entry, Ghost(soup): Ghost<Seq<Point3>>, Ghost(g): Ghost<int>)
    requires
        entries_ok(old(v)@, soup, g),
        entries_ok(seq![e], soup, g),
    ensures
        final(v)@ == insert_entry(old(v)@, e),
        entries_ok(final(v)@, soup, g),
    decreases old(v).len(),
{
    proof {
        assert(seq![e][0] == e);
    }
    if v.len() == 0 {
        v.push(e);
        return ;
    }
    let last = v[v.len() - 1];
    if is_entry_less(&e, &last) {
        let ghost before = v@;
        v.pop();
        assert(v@ == before.drop_last());
        insert_sorted(v, e, Ghost(soup), Ghost(g));
        v.push(last);
    } else {
        v.push(e);
    }
}

fn sort_entries(list: &Vec<Entry>, Ghost(soup): Ghost<Seq<Point3>>, Ghost(g): Ghost<int>) -> (r: Vec<Entry>)
    requires
        entries_ok(list@, soup, g),
    ensures
        r@ == sorted_entries(list@),
        entries_ok(r@, soup, g),
{
    let mut r: Vec<Entry> = Vec::new();
    let mut i: usize = 0;
    assert(list@.take(0) =~= Seq::<Entry>::empty());
    while i < list.len()
        invariant
            0 <= i <= list.len(),
            entries_ok(list@, soup, g),
            r@ == sorted_entries(list@.take(i as int)),
            entries_ok(r@, soup, g),
        decreases list.len() - i,
    {
        proof {
            assert(list@.take(i + 1).drop_last() =~= list@.take(i as int));
            assert(list@.take(i + 1).last() == list[i as int]);
        }
        assert(entries_ok(seq![list[i as int]], soup, g));
        insert_sorted(&mut r, list[i], Ghost(soup), Ghost(g));
        i += 1;
    }
    proof {
        assert(list@.take(list.len() as int) =~= list@);
    }
    r
}

/// Pairs of corners as pairs of numbers.
pub open spec fn int_pairs(pairs: Seq<(usize, usize)>) -> Seq<(int, int)> {
    Seq::new(pairs.len(), |k: int| (pairs[k].0 as int, pairs[k].1 as int))
}

/// The index of the first entry against the edge, or the length.
fn find_inverse(list: &Vec<Entry>) -> (a: usize)
    ensures
        a == first_from(is_inverse(list@), 0, list.len() as int),
        a <= list.len(),
        a < list.len() ==> !list[a as int].forward,
{
    let len = list.len();
    let mut a: usize = 0;
    while a < len && list[a].forward
        invariant
            0 <= a <= len,
            len == list.len(),
            forall|i: int| 0 <= i < a ==> !#[trigger] is_inverse(list@)(i),
        decreases len - a,
    {
        a += 1;
    }
    proof {
        lemma_first_from(is_inverse(list@), 0, a as int, len as int);
    }
    a
}

/// How far behind entry `a`, around the list, the next entry along the
/// edge stands, and its index; the length where there is none.
fn find_forward(list: &Vec<Entry>, a: usize) -> (r: (usize, usize))
    requires
        a < list.len(),
    ensures
        r.0 == first_from(forward_behind(list@, a as int), 1, list.len() as int),
        1 <= r.0 <= list.len(),
        r.0 < list.len() ==> r.1 == cyclic(a + r.0, list.len() as int) && r.1 < list.len()
            && r.1 != a && list[r.1 as int].forward,
{
    let len = list.len();
    let mut k: usize = 1;
    let mut b: usize = if a + 1 == len {
        0
    } else {
        a + 1
    };
    while k < len && !list[b].forward
        invariant
            1 <= k <= len,
            a < len,
            len == list.len(),
            k < len ==> b == cyclic(a + k, len as int),
            b < len,
            forall|i: int| 1 <= i < k ==> !#[trigger] forward_behind(list@, a as int)(i),
        decreases len - k,
    {
        k += 1;
        b = if b + 1 == len {
            0
        } else {
            b + 1
        };
    }
    proof {
        lemma_first_from(forward_behind(list@, a as int), 1, k as int, len as int);
    }
    (k, b)
}

/// The pairs of neighbours across the edge whose triangles are `entries`.
fn pair_up(entries: Vec<Entry>, Ghost(soup): Ghost<Seq<Point3>>, Ghost(g): Ghost<int>) -> (r: Vec<
    (usize, usize),
>)
    requires
        entries_ok(entries@, soup, g),
    ensures
        int_pairs(r@) == pairs_of(entries@),
        forall|k: int|
            0 <= k < r.len() ==> {
                &&& (#[trigger] r[k]).0 < soup.len()
                &&& r[k].1 < soup.len()
                &&& against_edge(soup, r[k].0 as int, g)
                &&& same_edge(soup, r[k].1 as int, g)
            },
{
    let ghost whole = entries@;
    let mut list = entries;
    let mut r: Vec<(usize, usize)> = Vec::new();
    assert(int_pairs(r@) + pairs_of(list@) =~= pairs_of(whole));
    loop
        invariant
            whole == entries@,
            entries_ok(list@, soup, g),
            int_pairs(r@) + pairs_of(list@) == pairs_of(whole),
            forall|k: int|
                0 <= k < r.len() ==> {
                    &&& (#[trigger] r[k]).0 < soup.len()
                    &&& r[k].1 < soup.len()
                    &&& against_edge(soup, r[k].0 as int, g)
                    &&& same_edge(soup, r[k].1 as int, g)
                },
        decreases list.len(),
    {
        let len = list.len();
        let a = find_inverse(&list);
        if a >= len {
            assert(pairs_of(list@) =~= Seq::<(int, int)>::empty());
            assert(int_pairs(r@) + pairs_of(list@) =~= int_pairs(r@));
            return r;
        }
        let (k, b) = find_forward(&list, a);
        if k >= len {
            assert(pairs_of(list@) =~= Seq::<(int, int)>::empty());
            assert(int_pairs(r@) + pairs_of(list@) =~= int_pairs(r@));
            return r;
        }
        let pair: (usize, usize) = (list[a].corner, list[b].corner);
        let ghost before = list@;
        let ghost done = r@;
        if a < b {
            list.remove(b);
            list.remove(a);
        } else {
            list.remove(a);
            list.remove(b);
        }
        r.push(pair);
        proof {
            let p = (pair.0 as int, pair.1 as int);
            assert(pairs_of(before) == seq![p] + pairs_of(list@));
            assert(int_pairs(r@) =~= int_pairs(done).push(p));
            assert(int_pairs(done).push(p) + pairs_of(list@) =~= int_pairs(done) + (seq![p]
                + pairs_of(list@)));
        }
    }
}

/// Two labellings put the same corners together.
pub open spec fn same_partition(u: Seq<int>, l: Seq<int>) -> bool {
    &&& u.len() == l.len()
    &&& forall|i: int, j: int|
        #![trigger u[i], u[j]]
        0 <= i < u.len() && 0 <= j < u.len() ==> ((u[i] == u[j]) <==> (l[i] == l[j]))
}

/// Corners with one label are at one position: no two corners that stand
/// apart become one vertex.
pub open spec fn labels_keep_place(l: Seq<int>, soup: Seq<Point3>) -> bool {
    forall|i: int, j: int|
        #![trigger l[i], l[j]]
        0 <= i < l.len() && 0 <= j < l.len() && l[i] == l[j] ==> soup[i] == soup[j]
}

proof fn lemma_links_push(pairs: Seq<(int, int)>, m: int)
    requires
        0 <= m < pairs.len(),
    ensures
        links_of(pairs.take(m + 1)) == links_of(pairs.take(m)).push(
            (pairs[m].0, next_corner(pairs[m].1)),
        ).push((next_corner(pairs[m].0), pairs[m].1)),
{
    assert(pairs.take(m + 1).drop_last() =~= pairs.take(m));
    assert(pairs.take(m + 1).last() == pairs[m]);
}

proof fn lemma_labels_push(n: nat, links: Seq<(int, int)>, link: (int, int))
    ensures
        labels_after(n, links.push(link)) == joined(labels_after(n, links), link.0, link.1),
        labels_after(n, links).len() == n,
    decreases links.len(),
{
    assert(links.push(link).drop_last() =~= links);
    if links.len() > 0 {
        lemma_labels_push(n, links.drop_last(), links.last());
        assert(links.drop_last().push(links.last()) =~= links);
    }
}

/// There is a label for each of the `n` corners.
pub proof fn lemma_labels_len_of(n: nat, links: Seq<(int, int)>)
    ensures
        labels_after(n, links).len() == n,
    decreases links.len(),
{
    if links.len() > 0 {
        lemma_labels_len_of(n, links.drop_last());
    }
}

/// There is a label for each corner.
pub proof fn lemma_labels_len(soup: Seq<Point3>)
    ensures
        vertex_labels(soup).len() == soup.len(),
{
    lemma_labels_push(soup.len(), soup_links(soup, soup.len()), (0, 0));
}

/// Joins the sets of `a` and `b`, which are at one position.
fn join(
    sets: &mut UnionFind<usize>,
    a: usize,
    b: usize,
    Ghost(soup): Ghost<Seq<Point3>>,
    Ghost(links): Ghost<Seq<(int, int)>>,
)
    requires
        a < soup.len(),
        b < soup.len(),
        soup[a as int] == soup[b as int],
        same_partition(set_labels(*old(sets)), labels_after(soup.len(), links)),
        labels_keep_place(labels_after(soup.len(), links), soup),
    ensures
        same_partition(
            set_labels(*final(sets)),
            labels_after(soup.len(), links.push((a as int, b as int))),
        ),
        labels_keep_place(labels_after(soup.len(), links.push((a as int, b as int))), soup),
{
    let ghost u = set_labels(*sets);
    let ghost l = labels_after(soup.len(), links);
    proof {
        lemma_labels_push(soup.len(), links, (a as int, b as int));
    }
    sets_union(sets, a, b);
    proof {
        let u2 = set_labels(*sets);
        let l2 = joined(l, a as int, b as int);
        assert forall|i: int, j: int|
            #![trigger u2[i], u2[j]]
            0 <= i < u2.len() && 0 <= j < u2.len() implies ((u2[i] == u2[j]) <==> (l2[i]
            == l2[j])) by {
            assert((u[i] == u[a as int]) <==> (l[i] == l[a as int]));
            assert((u[i] == u[b as int]) <==> (l[i] == l[b as int]));
            assert((u[j] == u[a as int]) <==> (l[j] == l[a as int]));
            assert((u[j] == u[b as int]) <==> (l[j] == l[b as int]));
            assert((u[i] == u[j]) <==> (l[i] == l[j]));
            assert((u[a as int] == u[b as int]) <==> (l[a as int] == l[b as int]));
        }
        assert forall|i: int, j: int|
            #![trigger l2[i], l2[j]]
            0 <= i < l2.len() && 0 <= j < l2.len() && l2[i] == l2[j] implies soup[i]
            == soup[j] by {
            assert(l[i] == l[b as int] ==> soup[i] == soup[b as int]);
            assert(l[j] == l[b as int] ==> soup[j] == soup[b as int]);
            assert(l[i] == l[a as int] ==> soup[i] == soup[a as int]);
            assert(l[j] == l[a as int] ==> soup[j] == soup[a as int]);
            assert(l[i] == l[j] ==> soup[i] == soup[j]);
        }
    }
}

fn does_lead(soup: &Vec<Point3>, g: usize) -> (r: bool)
    requires
        g < soup.len(),
        soup.len() % 3 == 0,
    ensures
        r == leads(soup@, g as int),
{
    let mut j: usize = 0;
    while j < g
        invariant
            0 <= j <= g,
            g < soup.len(),
            soup.len() % 3 == 0,
            forall|k: int|
                0 <= k < j ==> !same_edge(soup@, k, g as int) && !against_edge(soup@, k, g as int),
        decreases g - j,
    {
        if is_same_edge(soup, j, g) || is_against_edge(soup, j, g) {
            return false;
        }
        j += 1;
    }
    true
}

/// A label for each corner, the same for the corners of one vertex.
fn link_corners(soup: &Vec<Point3>) -> (labels: Vec<usize>)
    requires
        soup_ok(soup@),
    ensures
        labels.len() == soup.len(),
        same_partition(Seq::new(labels.len() as nat, |i: int| labels[i] as int), vertex_labels(soup@)),
        labels_keep_place(vertex_labels(soup@), soup@),
{
    let n = soup.len();
    let mut sets = sets_new(n);
    let mut g: usize = 0;
    while g < n
        invariant
            0 <= g <= n,
            n == soup.len(),
            soup_ok(soup@),
            same_partition(set_labels(sets), labels_after(n as nat, soup_links(soup@, g as nat))),
            labels_keep_place(labels_after(n as nat, soup_links(soup@, g as nat)), soup@),
        decreases n - g,
    {
        if does_lead(soup, g) {
            let list = gather(soup, g);
            let fan = sort_entries(&list, Ghost(soup@), Ghost(g as int));
            let pairs = pair_up(fan, Ghost(soup@), Ghost(g as int));
            let ghost before = soup_links(soup@, g as nat);
            let ghost all = int_pairs(pairs@);
            let mut m: usize = 0;
            assert(before + links_of(all.take(0)) =~= before);
            while m < pairs.len()
                invariant
                    0 <= m <= pairs.len(),
                    n == soup.len(),
                    g < n,
                    soup_ok(soup@),
                    all == int_pairs(pairs@),
                    before == soup_links(soup@, g as nat),
                    forall|k: int|
                        0 <= k < pairs.len() ==> {
                            &&& (#[trigger] pairs[k]).0 < soup.len()
                            &&& pairs[k].1 < soup.len()
                            &&& against_edge(soup@, pairs[k].0 as int, g as int)
                            &&& same_edge(soup@, pairs[k].1 as int, g as int)
                        },
                    same_partition(
                        set_labels(sets),
                        labels_after(n as nat, before + links_of(all.take(m as int))),
                    ),
                    labels_keep_place(
                        labels_after(n as nat, before + links_of(all.take(m as int))),
                        soup@,
                    ),
                decreases pairs.len() - m,
            {
                let x = pairs[m].0;
                let y = pairs[m].1;
                let x_next = next_of(x, n);
                let y_next = next_of(y, n);
                let ghost done = before + links_of(all.take(m as int));
                join(&mut sets, x, y_next, Ghost(soup@), Ghost(done));
                join(&mut sets, x_next, y, Ghost(soup@), Ghost(done.push((x as int, y_next as int))));
                proof {
                    lemma_links_push(all, m as int);
                    assert(before + links_of(all.take(m + 1)) =~= done.push(
                        (x as int, y_next as int),
                    ).push((x_next as int, y as int)));
                }
                m += 1;
            }
            proof {
                assert(all.take(pairs.len() as int) =~= all);
            }
        }
        g += 1;
    }
    let labels = sets_into_labeling(sets);
    proof {
        lemma_labels_push(n as nat, soup_links(soup@, n as nat), (0, 0));
        assert(Seq::new(labels.len() as nat, |i: int| labels[i] as int) =~= set_labels(sets));
    }
    labels
}

/// The corners of the triangles, one after the other.
pub open spec fn flat_soup(triangles: Seq<[Point3; 3]>) -> Seq<Point3> {
    Seq::new(3 * triangles.len(), |k: int| triangles[k / 3][k % 3])
}

/// A corner before corner `i` belongs to vertex `v`.
pub open spec fn used_before(indexes: Seq<u32>, i: int, v: int) -> bool {
    exists|q: int| 0 <= q < i && #[trigger] indexes[q] == v
}

/// The vertex numbers put together exactly the corners that the labels put
/// together, and number the vertices in the order of their first corner:
/// before a corner of vertex `v` every vertex below `v` has had a corner.
pub open spec fn numbers_vertices(indexes: Seq<u32>, labels: Seq<int>) -> bool {
    &&& indexes.len() == labels.len()
    &&& forall|i: int, j: int|
        #![trigger indexes[i], indexes[j]]
        0 <= i < indexes.len() && 0 <= j < indexes.len() ==> ((indexes[i] == indexes[j]) <==> (
        labels[i] == labels[j]))
    &&& forall|i: int, v: int|
        0 <= i < indexes.len() && 0 <= v < indexes[i] ==> #[trigger] used_before(indexes, i, v)
}

/// The number of each corner's vertex, and for each vertex its first corner.
pub(crate) fn number_vertices(labels: &Vec<usize>) -> (r: (Vec<u32>, Vec<usize>))
    requires
        labels.len() <= u32::MAX,
    ensures
        numbers_vertices(r.0@, Seq::new(labels.len() as nat, |i: int| labels[i] as int)),
        r.1.len() <= labels.len(),
        forall|k: int| 0 <= k < r.0.len() ==> (#[trigger] r.0[k] as int) < r.1.len(),
        forall|v: int|
            0 <= v < r.1.len() ==> (#[trigger] r.1[v]) < labels.len() && r.0[r.1[v] as int] == v,
{
    let n = labels.len();
    let ghost l = Seq::new(n as nat, |i: int| labels[i] as int);
    let mut indexes: Vec<u32> = Vec::new();
    let mut firsts: Vec<usize> = Vec::new();
    let mut i: usize = 0;
    while i < n
        invariant
            0 <= i <= n,
            n == labels.len(),
            n <= u32::MAX,
            l == Seq::new(n as nat, |i: int| labels[i] as int),
            indexes.len() == i,
            firsts.len() <= i,
            forall|p: int, q: int|
                #![trigger indexes[p], indexes[q]]
                0 <= p < i && 0 <= q < i ==> ((indexes[p] == indexes[q]) <==> (labels[p]
                    == labels[q])),
            forall|p: int, v: int|
                0 <= p < i && 0 <= v < indexes[p] ==> #[trigger] used_before(indexes@, p, v),
            forall|k: int| 0 <= k < i ==> (#[trigger] indexes[k] as int) < firsts.len(),
            forall|v: int|
                0 <= v < firsts.len() ==> (#[trigger] firsts[v]) < i && indexes[firsts[v] as int]
                    == v,
        decreases n - i,
    {
        let mut j: usize = 0;
        while j < i && labels[j] != labels[i]
            invariant
                0 <= j <= i,
                i < n,
                n == labels.len(),
                forall|k: int| 0 <= k < j ==> labels[k] != labels[i as int],
            decreases i - j,
        {
            j += 1;
        }
        let ghost before = indexes@;
        if j < i {
            let v = indexes[j];
            indexes.push(v);
            proof {
                assert forall|p: int, w: int|
                    0 <= p < i + 1 && 0 <= w < indexes[p] implies #[trigger] used_before(
                    indexes@,
                    p,
                    w,
                ) by {
                    if p < i {
                        assert(indexes[p] == before[p]);
                        assert(used_before(before, p, w));
                        let q = choose|q: int| 0 <= q < p && #[trigger] before[q] == w;
                        assert(indexes[q] == w);
                    } else {
                        assert(0 <= w < before[j as int]);
                        assert(used_before(before, j as int, w));
                        let q = choose|q: int| 0 <= q < j && #[trigger] before[q] == w;
                        assert(indexes[q] == w);
                    }
                }
            }
        } else {
            let v = firsts.len() as u32;
            let ghost firsts_before = firsts@;
            indexes.push(v);
            firsts.push(i);
            proof {
                assert forall|p: int, w: int|
                    0 <= p < i + 1 && 0 <= w < indexes[p] implies #[trigger] used_before(
                    indexes@,
                    p,
                    w,
                ) by {
                    if p < i {
                        assert(indexes[p] == before[p]);
                        assert(used_before(before, p, w));
                        let q = choose|q: int| 0 <= q < p && #[trigger] before[q] == w;
                        assert(indexes[q] == w);
                    } else {
                        let q = firsts_before[w] as int;
                        assert(indexes[q] == w);
                    }
                }
                assert forall|w: int| 0 <= w < firsts.len() implies (#[trigger] firsts[w]) < i + 1
                    && indexes[firsts[w] as int] == w by {
                    if w < firsts_before.len() {
                        assert(firsts[w] == firsts_before[w]);
                    }
                }
            }
        }
        i += 1;
    }
    (indexes, firsts)
}

/// The mesh of a soup given corner by corner, with the material of each
/// triangle: corners are one vertex exactly when `vertex_labels` gives
/// them one label, and the faces keep their order and their materials.
pub fn stitch(soup: Vec<Point3>, tags: Vec<MaterialID>) -> (mesh: MaterialMesh)
    requires
        soup_ok(soup@),
        soup.len() == 3 * tags.len(),
        soup.len() <= u32::MAX,
    ensures
        numbers_vertices(mesh.indexes(), vertex_labels(soup@)),
        forall|v: int|
            0 <= v < mesh.positions().len() ==> #[trigger] used_before(
                mesh.indexes(),
                mesh.indexes().len() as int,
                v,
            ),
        forall|i: int| 0 <= i < mesh.indexes().len() ==> #[trigger] mesh.corner(i) == soup[i],
        mesh.tags() == tags@,
        labels_keep_place(vertex_labels(soup@), soup@),
        two_sided(soup@) ==> forall|chain: Seq<int>| #[trigger]
            is_chain(soup@, chain) ==> mesh.indexes()[chain.first()] == mesh.indexes()[chain.last()],
{
    let labels = link_corners(&soup);
    let (indexes, firsts) = number_vertices(&labels);
    let mut positions: Vec<Point3> = Vec::new();
    let mut v: usize = 0;
    while v < firsts.len()
        invariant
            0 <= v <= firsts.len(),
            positions.len() == v,
            forall|w: int| 0 <= w < firsts.len() ==> (#[trigger] firsts[w]) < soup.len(),
            forall|w: int| 0 <= w < v ==> #[trigger] positions[w] == soup[firsts[w] as int],
        decreases firsts.len() - v,
    {
        positions.push(soup[firsts[v]]);
        v += 1;
    }
    proof {
        let l = vertex_labels(soup@);
        let u = Seq::new(labels.len() as nat, |i: int| labels[i] as int);
        assert forall|i: int, j: int|
            #![trigger indexes[i], indexes[j]]
            0 <= i < indexes.len() && 0 <= j < indexes.len() implies ((indexes[i] == indexes[j])
            <==> (l[i] == l[j])) by {
            assert((u[i] == u[j]) <==> (l[i] == l[j]));
        }
        assert forall|i: int| 0 <= i < indexes.len() implies positions[indexes[i] as int]
            == soup[i] by {
            let first = firsts[indexes[i] as int] as int;
            assert(indexes[first] == indexes[i]);
            assert(l[first] == l[i]);
        }
        assert forall|w: int| 0 <= w < positions.len() implies #[trigger] used_before(
            indexes@,
            indexes.len() as int,
            w,
        ) by {
            assert(indexes[firsts[w] as int] == w);
        }
        if two_sided(soup@) {
            assert forall|chain: Seq<int>| #[trigger] is_chain(soup@, chain) implies indexes[chain.first()]
                == indexes[chain.last()] by {
                lemma_chain_is_joined(soup@, chain);
                assert(0 <= chain[0] < soup.len());
                assert(0 <= chain[chain.len() - 1] < soup.len());
            }
        }
    }
    MaterialMesh::from_parts(positions, indexes, tags)
}

/// The manifold mesh of a triangle soup, each of whose triangles is given
/// with its corners in order, counterclockwise seen from outside.
///
/// Every triangle becomes a face of the first material, in the order of the
/// soup. Two corners are one vertex exactly when `vertex_labels` gives them
/// one label; the vertices are numbered in the order of their first corner,
/// and each stands where its corners stand.
pub fn manifold_from_triangle_soup(triangles: Vec<[Point3; 3]>) -> (mesh: MaterialMesh)
    requires
        3 * triangles.len() <= u32::MAX,
        forall|k: int, c: int|
            0 <= k < triangles.len() && 0 <= c < 3 ==> point_ok(#[trigger] triangles[k][c]),
    ensures
        numbers_vertices(mesh.indexes(), vertex_labels(flat_soup(triangles@))),
        forall|v: int|
            0 <= v < mesh.positions().len() ==> #[trigger] used_before(
                mesh.indexes(),
                mesh.indexes().len() as int,
                v,
            ),
        forall|i: int|
            0 <= i < mesh.indexes().len() ==> #[trigger] mesh.corner(i) == flat_soup(
                triangles@,
            )[i],
        mesh.tags().len() == triangles.len(),
        forall|f: int| 0 <= f < mesh.tags().len() ==> (#[trigger] mesh.tags()[f]).value() == 1,
        labels_keep_place(vertex_labels(flat_soup(triangles@)), flat_soup(triangles@)),
        two_sided(flat_soup(triangles@)) ==> forall|chain: Seq<int>| #[trigger]
            is_chain(flat_soup(triangles@), chain) ==> mesh.indexes()[chain.first()]
                == mesh.indexes()[chain.last()],
{
    let count = triangles.len();
    let mut soup: Vec<Point3> = Vec::new();
    let mut tags: Vec<MaterialID> = Vec::new();
    let mut k: usize = 0;
    while k < count
        invariant
            0 <= k <= count,
            count == triangles.len(),
            3 * count <= u32::MAX,
            soup@ == flat_soup(triangles@).take(3 * k),
            tags.len() == k,
            forall|f: int| 0 <= f < tags.len() ==> (#[trigger] tags[f]).value() == 1,
        decreases count - k,
    {
        let t = triangles[k];
        soup.push(t[0]);
        soup.push(t[1]);
        soup.push(t[2]);
        tags.push(MaterialID::new(1));
        proof {
            let all = flat_soup(triangles@);
            assert(all[3 * k] == t[0] && all[3 * k + 1] == t[1] && all[3 * k + 2] == t[2]);
            assert(all.take(3 * (k + 1)) =~= all.take(3 * k).push(t[0]).push(t[1]).push(t[2]));
        }
        k += 1;
    }
    proof {
        let all = flat_soup(triangles@);
        assert(all.take(3 * count) =~= all);
        assert forall|i: int| 0 <= i < all.len() implies point_ok(#[trigger] all[i]) by {
            assert(point_ok(triangles@[i / 3][i % 3]));
        }
    }
    stitch(soup, tags)
}

/// Every corner of every triangle lies within `SOUP_MAX`.
pub open spec fn triangles_ok(triangles: Seq<[Point3; 3]>) -> bool {
    forall|k: int, c: int|
        0 <= k < triangles.len() && 0 <= c < 3 ==> point_ok(#[trigger] triangles[k][c])
}

/// `manifold_from_triangle_soup`, or nothing for a soup that it does not
/// take: one with more corners than 32 bits count, or with a corner
/// beyond `SOUP_MAX`.
pub fn try_manifold_from_triangle_soup(triangles: Vec<[Point3; 3]>) -> (mesh: Option<MaterialMesh>)
    ensures
        mesh is Some <==> 3 * triangles.len() <= u32::MAX && triangles_ok(triangles@),
        mesh is Some ==> numbers_vertices(
            mesh->0.indexes(),
            vertex_labels(flat_soup(triangles@)),
        ),
        mesh is Some ==> forall|i: int|
            0 <= i < mesh->0.indexes().len() ==> #[trigger] mesh->0.corner(i) == flat_soup(
                triangles@,
            )[i],
        mesh is Some ==> mesh->0.tags().len() == triangles.len(),
{
    if triangles.len() > 0x5555_5555 {
        return None;
    }
    let mut k: usize = 0;
    while k < triangles.len()
        invariant
            0 <= k <= triangles.len(),
            forall|f: int, c: int| 0 <= f < k && 0 <= c < 3 ==> point_ok(#[trigger] triangles[f][c]),
        decreases triangles.len() - k,
    {
        let t = triangles[k];
        let mut c: usize = 0;
        while c < 3
            invariant
                0 <= c <= 3,
                k < triangles.len(),
                t == triangles[k as int],
                forall|d: int| 0 <= d < c ==> point_ok(#[trigger] t[d]),
            decreases 3 - c,
        {
            let p = t[c];
            if p.0 < -SOUP_MAX || p.0 > SOUP_MAX || p.1 < -SOUP_MAX || p.1 > SOUP_MAX || p.2
                < -SOUP_MAX || p.2 > SOUP_MAX {
                assert(!point_ok(triangles[k as int][c as int]));
                return None;
            }
            c += 1;
        }
        k += 1;
    }
    Some(manifold_from_triangle_soup(triangles))
}

} // verus!
