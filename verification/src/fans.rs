//! A manifold soup is put together again: where every edge has at most
//! two faces, one on each side, the corners that neighbouring faces share
//! become one vertex, and so do all corners around a vertex whose faces
//! hang together edge by edge.

use crate::cell::own_corners;
use crate::lattice::Point3;
use crate::manifold::against_edge;
use crate::manifold::cyclic;
use crate::manifold::edge_fan;
use crate::manifold::entry_at;
use crate::manifold::entry_less;
use crate::manifold::forward_behind;
use crate::manifold::forward_entries;
use crate::manifold::insert_entry;
use crate::manifold::inverse_entries;
use crate::manifold::is_inverse;
use crate::manifold::joined;
use crate::manifold::labels_keep_place;
use crate::manifold::numbers_vertices;
use crate::material_mesh::well_indexed;
use crate::material_mesh::MaterialMesh;
use crate::manifold::labels_after;
use crate::manifold::leads;
use crate::manifold::links_of;
use crate::manifold::next_corner;
use crate::manifold::pairs_of;
use crate::manifold::same_edge;
use crate::manifold::sorted_entries;
use crate::manifold::soup_links;
use crate::manifold::vertex_labels;
use crate::manifold::Entry;
use crate::seqs::lemma_first_from;
use vstd::prelude::*;

verus! {

/// Every edge has at most two faces, one on each side: no two sides run
/// the same way between the same two places, no two run against one side,
/// and no side is a point.
pub open spec fn two_sided(soup: Seq<Point3>) -> bool {
    &&& soup.len() % 3 == 0
    &&& soup.len() <= usize::MAX
    &&& forall|j: int, k: int|
        0 <= j < soup.len() && 0 <= k < soup.len() && #[trigger] same_edge(soup, j, k) ==> j == k
    &&& forall|i: int, j: int, k: int|
        0 <= i < soup.len() && 0 <= j < soup.len() && 0 <= k < soup.len() && #[trigger] against_edge(
            soup,
            i,
            k,
        ) && #[trigger] against_edge(soup, j, k) ==> i == j
    &&& forall|k: int| 0 <= k < soup.len() ==> soup[k] != #[trigger] soup[next_corner(k)]
}

/// The corners `c` and `d` are the same corner of an edge in the two faces
/// at the edge: `c` is where the side of one face starts, and `d` where
/// the side of the other face, which runs against it, ends.
pub open spec fn across_edge(soup: Seq<Point3>, c: int, d: int) -> bool {
    exists|k: int|
        0 <= k < soup.len() && 0 <= c < soup.len() && #[trigger] against_edge(soup, c, k) && d
            == next_corner(k)
}

/// Each corner of the chain and the next are the same corner of an edge in
/// the two faces at the edge.
pub open spec fn is_chain(soup: Seq<Point3>, chain: Seq<int>) -> bool {
    &&& chain.len() > 0
    &&& forall|t: int| 0 <= t < chain.len() ==> 0 <= #[trigger] chain[t] < soup.len()
    &&& forall|t: int|
        0 <= t < chain.len() - 1 ==> across_edge(soup, #[trigger] chain[t], chain[t + 1])
            || across_edge(soup, chain[t + 1], chain[t])
}

proof fn lemma_next_in_range(k: int, n: int)
    requires
        0 <= k < n,
        n % 3 == 0,
    ensures
        0 <= next_corner(k) < n,
        next_corner(k) != k,
{
}

/// At a two-sided edge the side that starts at `g` is the only one that
/// runs along it.
proof fn lemma_forward_single(soup: Seq<Point3>, g: int, m: nat)
    requires
        two_sided(soup),
        0 <= g < soup.len(),
        m <= soup.len(),
    ensures
        forward_entries(soup, g, m) == if m > g {
            seq![entry_at(soup, g, g, true)]
        } else {
            Seq::<Entry>::empty()
        },
    decreases m,
{
    if m > 0 {
        lemma_forward_single(soup, g, (m - 1) as nat);
        let k = m - 1;
        if same_edge(soup, k, g) {
            assert(k == g);
            assert(Seq::<Entry>::empty().push(entry_at(soup, g, g, true)) =~= seq![
                entry_at(soup, g, g, true),
            ]);
        } else {
            assert(k != g);
        }
    }
}

/// At a two-sided edge the side that starts at `j` is the only one that
/// runs against the side that starts at `g`.
proof fn lemma_inverse_single(soup: Seq<Point3>, g: int, j: int, m: nat)
    requires
        two_sided(soup),
        0 <= g < soup.len(),
        0 <= j < soup.len(),
        against_edge(soup, j, g),
        m <= soup.len(),
    ensures
        inverse_entries(soup, g, m) == if m > j {
            seq![entry_at(soup, g, j, false)]
        } else {
            Seq::<Entry>::empty()
        },
    decreases m,
{
    if m > 0 {
        lemma_inverse_single(soup, g, j, (m - 1) as nat);
        let k = m - 1;
        if against_edge(soup, k, g) {
            assert(k == j);
            assert(Seq::<Entry>::empty().push(entry_at(soup, g, j, false)) =~= seq![
                entry_at(soup, g, j, false),
            ]);
        } else {
            assert(k != j);
        }
    }
}

/// Two triangles at an edge, one on each side, are neighbours, however
/// they stand around the edge.
proof fn lemma_pair_of_two(f: Entry, i: Entry)
    requires
        f.forward,
        !i.forward,
    ensures
        pairs_of(sorted_entries(seq![f, i])) == seq![(i.corner as int, f.corner as int)],
{
    let both = seq![f, i];
    assert(both.drop_last() =~= seq![f]);
    assert(both.last() == i);
    assert(seq![f].drop_last() =~= Seq::<Entry>::empty());
    assert(seq![f].last() == f);
    assert(sorted_entries(Seq::<Entry>::empty()) =~= Seq::<Entry>::empty());
    assert(insert_entry(Seq::<Entry>::empty(), f) =~= seq![f]);
    assert(sorted_entries(seq![f]) =~= seq![f]);
    let list = sorted_entries(both);
    assert(list == insert_entry(seq![f], i));
    assert(insert_entry(Seq::<Entry>::empty(), i) =~= seq![i]);
    if entry_less(i, f) {
        assert(list =~= seq![i, f]);
        lemma_first_from(is_inverse(list), 0, 0, 2);
        assert(forward_behind(list, 0)(1)) by {
            assert(cyclic(1, 2) == 1);
        }
        lemma_first_from(forward_behind(list, 0), 1, 1, 2);
        let rest = list.remove(1).remove(0);
        assert(rest =~= Seq::<Entry>::empty());
        assert(pairs_of(rest) =~= Seq::<(int, int)>::empty());
        assert(pairs_of(list) =~= seq![(i.corner as int, f.corner as int)]);
    } else {
        assert(list =~= seq![f, i]);
        assert(!is_inverse(list)(0));
        lemma_first_from(is_inverse(list), 0, 1, 2);
        assert(forward_behind(list, 1)(1)) by {
            assert(cyclic(2, 2) == 0);
        }
        lemma_first_from(forward_behind(list, 1), 1, 1, 2);
        let rest = list.remove(1).remove(0);
        assert(rest =~= Seq::<Entry>::empty());
        assert(pairs_of(rest) =~= Seq::<(int, int)>::empty());
        assert(pairs_of(list) =~= seq![(i.corner as int, f.corner as int)]);
    }
}

/// The links across the edge of a leading side are among the links of the
/// soup.
proof fn lemma_group_links_are_links(soup: Seq<Point3>, g: int, n: nat, link: (int, int))
    requires
        0 <= g < n,
        leads(soup, g),
        links_of(pairs_of(edge_fan(soup, g))).contains(link),
    ensures
        soup_links(soup, n).contains(link),
    decreases n,
{
    let group = links_of(pairs_of(edge_fan(soup, g)));
    let before = soup_links(soup, (n - 1) as nat);
    if g == n - 1 {
        let t = choose|t: int| 0 <= t < group.len() && group[t] == link;
        assert((before + group)[before.len() + t] == link);
    } else {
        lemma_group_links_are_links(soup, g, (n - 1) as nat, link);
        let t = choose|t: int| 0 <= t < before.len() && before[t] == link;
        if leads(soup, n - 1) {
            let last = links_of(pairs_of(edge_fan(soup, n - 1)));
            assert((before + last)[t] == link);
        }
    }
}

/// The two ends of a link have one label.
proof fn lemma_link_joins(n: nat, links: Seq<(int, int)>, t: int)
    requires
        0 <= t < links.len(),
        0 <= links[t].0 < n,
        0 <= links[t].1 < n,
    ensures
        labels_after(n, links).len() == n,
        labels_after(n, links)[links[t].0] == labels_after(n, links)[links[t].1],
    decreases links.len(),
{
    crate::manifold::lemma_labels_len_of(n, links);
    let head = links.drop_last();
    let last = links.last();
    let before = labels_after(n, head);
    crate::manifold::lemma_labels_len_of(n, head);
    let after = joined(before, last.0, last.1);
    if t < links.len() - 1 {
        lemma_link_joins(n, head, t);
        assert(head[t] == links[t]);
    }
}

/// The corners that two faces at a two-sided edge share have one label.
proof fn lemma_neighbours_are_joined(soup: Seq<Point3>, j: int, k: int)
    requires
        two_sided(soup),
        0 <= j < soup.len(),
        0 <= k < soup.len(),
        against_edge(soup, j, k),
    ensures
        vertex_labels(soup).len() == soup.len(),
        0 <= next_corner(k) < soup.len(),
        vertex_labels(soup)[j] == vertex_labels(soup)[next_corner(k)],
{
    crate::manifold::lemma_labels_len(soup);
    let n = soup.len();
    lemma_next_in_range(k, n as int);
    lemma_next_in_range(j, n as int);
    assert(against_edge(soup, k, j));
    assert(j != k);
    let g = if k < j {
        k
    } else {
        j
    };
    let other = if k < j {
        j
    } else {
        k
    };
    assert(against_edge(soup, other, g));
    assert(same_edge(soup, g, g));
    assert forall|i: int| 0 <= i < g implies !same_edge(soup, i, g) && !against_edge(
        soup,
        i,
        g,
    ) by {
        if same_edge(soup, i, g) {
            assert(i == g);
        }
        if against_edge(soup, i, g) {
            assert(i == other);
        }
    }
    assert(leads(soup, g));
    lemma_forward_single(soup, g, n);
    lemma_inverse_single(soup, g, other, n);
    let f = entry_at(soup, g, g, true);
    let i = entry_at(soup, g, other, false);
    assert(seq![f] + seq![i] =~= seq![f, i]);
    lemma_pair_of_two(f, i);
    let pairs = pairs_of(edge_fan(soup, g));
    assert(edge_fan(soup, g) == sorted_entries(seq![f, i]));
    assert(f.corner as int == g && i.corner as int == other);
    assert(pairs == seq![(other, g)]);
    assert(pairs.drop_last() =~= Seq::<(int, int)>::empty());
    assert(links_of(Seq::<(int, int)>::empty()) =~= Seq::<(int, int)>::empty());
    let group = links_of(pairs);
    assert(group =~= seq![(other, next_corner(g)), (next_corner(other), g)]);
    let link = if k < j {
        (j, next_corner(k))
    } else {
        (next_corner(k), j)
    };
    assert(group.contains(link)) by {
        if k < j {
            assert(group[0] == link);
        } else {
            assert(group[1] == link);
        }
    }
    lemma_group_links_are_links(soup, g, n, link);
    let all = soup_links(soup, n);
    let t = choose|t: int| 0 <= t < all.len() && all[t] == link;
    lemma_link_joins(n, all, t);
}

/// The first and the last corner of a chain have one label: corners that
/// faces share across two-sided edges are one vertex, and so are all
/// corners around a vertex whose faces hang together edge by edge.
pub proof fn lemma_chain_is_joined(soup: Seq<Point3>, chain: Seq<int>)
    requires
        two_sided(soup),
        is_chain(soup, chain),
    ensures
        vertex_labels(soup).len() == soup.len(),
        vertex_labels(soup)[chain.first()] == vertex_labels(soup)[chain.last()],
    decreases chain.len(),
{
    crate::manifold::lemma_labels_len(soup);
    if chain.len() > 1 {
        let head = chain.drop_last();
        assert forall|t: int| 0 <= t < head.len() - 1 implies across_edge(
            soup,
            #[trigger] head[t],
            head[t + 1],
        ) || across_edge(soup, head[t + 1], head[t]) by {
            assert(head[t] == chain[t] && head[t + 1] == chain[t + 1]);
        }
        assert forall|t: int| 0 <= t < head.len() implies 0 <= #[trigger] head[t] < soup.len() by {
            assert(head[t] == chain[t]);
        }
        lemma_chain_is_joined(soup, head);
        let c = chain[chain.len() - 2];
        let d = chain[chain.len() - 1];
        assert(head.last() == c);
        assert(head.first() == chain.first());
        assert(across_edge(soup, c, d) || across_edge(soup, d, c));
        if across_edge(soup, c, d) {
            let k = choose|k: int|
                0 <= k < soup.len() && 0 <= c < soup.len() && #[trigger] against_edge(soup, c, k)
                    && d == next_corner(k);
            lemma_neighbours_are_joined(soup, c, k);
        } else {
            let k = choose|k: int|
                0 <= k < soup.len() && 0 <= d < soup.len() && #[trigger] against_edge(soup, d, k)
                    && c == next_corner(k);
            lemma_neighbours_are_joined(soup, d, k);
        }
    }
}

/// The mesh is a manifold, perhaps with a boundary: every edge has at most
/// two faces, one on each side; no two vertices stand in one place; and
/// around every vertex the faces hang together edge by edge, so that a
/// chain leads from each corner of the vertex to each other.
pub open spec fn is_manifold(mesh: MaterialMesh) -> bool {
    &&& two_sided(own_corners(mesh))
    &&& forall|v: int, w: int|
        0 <= v < mesh.positions().len() && 0 <= w < mesh.positions().len()
            && #[trigger] mesh.positions()[v] == #[trigger] mesh.positions()[w] ==> v == w
    &&& forall|i: int, j: int|
        0 <= i < mesh.indexes().len() && 0 <= j < mesh.indexes().len()
            && #[trigger] mesh.indexes()[i] == #[trigger] mesh.indexes()[j] ==> exists|
            chain: Seq<int>,
        | #[trigger]
            is_chain(own_corners(mesh), chain) && chain.first() == i && chain.last() == j
}

/// `rebuilt` is the mesh of the soup, as `stitch` makes it.
pub open spec fn rebuilt_from(rebuilt: MaterialMesh, soup: Seq<Point3>) -> bool {
    &&& numbers_vertices(rebuilt.indexes(), vertex_labels(soup))
    &&& labels_keep_place(vertex_labels(soup), soup)
    &&& forall|i: int| 0 <= i < rebuilt.indexes().len() ==> #[trigger] rebuilt.corner(i) == soup[i]
}

/// The mesh of the soup of the faces of a manifold mesh is that mesh, but
/// for the numbers of its vertices: it has the same faces in the same
/// places, and two of its corners are one vertex exactly where they are
/// one vertex of the mesh.
pub proof fn lemma_manifold_mesh_is_rebuilt(mesh: MaterialMesh, rebuilt: MaterialMesh)
    requires
        well_indexed(mesh.positions(), mesh.indexes(), mesh.tags()),
        is_manifold(mesh),
        rebuilt_from(rebuilt, own_corners(mesh)),
    ensures
        rebuilt.indexes().len() == mesh.indexes().len(),
        forall|i: int| 0 <= i < mesh.indexes().len() ==> #[trigger] rebuilt.corner(i) == mesh.corner(i),
        forall|i: int, j: int|
            #![trigger rebuilt.indexes()[i], rebuilt.indexes()[j]]
            0 <= i < mesh.indexes().len() && 0 <= j < mesh.indexes().len() ==> ((
            rebuilt.indexes()[i] == rebuilt.indexes()[j]) <==> (mesh.indexes()[i]
                == mesh.indexes()[j])),
{
    let soup = own_corners(mesh);
    let labels = vertex_labels(soup);
    crate::manifold::lemma_labels_len(soup);
    assert forall|i: int, j: int|
        #![trigger rebuilt.indexes()[i], rebuilt.indexes()[j]]
        0 <= i < mesh.indexes().len() && 0 <= j < mesh.indexes().len() implies ((
        rebuilt.indexes()[i] == rebuilt.indexes()[j]) <==> (mesh.indexes()[i]
            == mesh.indexes()[j])) by {
        if rebuilt.indexes()[i] == rebuilt.indexes()[j] {
            assert(labels[i] == labels[j]);
            assert(soup[i] == soup[j]);
            let v = mesh.indexes()[i] as int;
            let w = mesh.indexes()[j] as int;
            assert(mesh.positions()[v] == mesh.positions()[w]);
        }
        if mesh.indexes()[i] == mesh.indexes()[j] {
            let chain = choose|chain: Seq<int>| #[trigger]
                is_chain(soup, chain) && chain.first() == i && chain.last() == j;
            lemma_chain_is_joined(soup, chain);
            assert(labels[i] == labels[j]);
        }
    }
}

} // verus!
