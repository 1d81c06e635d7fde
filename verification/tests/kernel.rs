use petgraph::data::{Element, FromElements};
use petgraph::graph::Graph;
use voxelization::collapse::is_small_edge;
use voxelization::collapse::CollapsePass;
use voxelization::contour::orient_edge;
use voxelization::contour::slice_bounds;
use voxelization::contour::split_plan;
use voxelization::contour::upward_fragments;
use voxelization::contour::ContourSweep;
use voxelization::contour::EdgeRange;
use voxelization::contour::Fragment;
use voxelization::contour::SplitAction;
use voxelization::contour::Spoke;
use voxelization::cube::intersect_center_unit_square;
use voxelization::cube::CubeFace;
use voxelization::decimate::is_flip_safe;
use voxelization::decimate::is_redundant;
use voxelization::decimate::is_uniform;
use voxelization::decimate::Dissolve;
use voxelization::decimate::DissolveStep;
use voxelization::decimate::Neighbour;
use voxelization::lattice::snap;
use voxelization::manifold::manifold_from_triangle_soup;
use voxelization::manifold::try_manifold_from_triangle_soup;
use voxelization::material_mesh::Axis;
use voxelization::material_mesh::MaterialID;
use voxelization::material_mesh::MaterialMesh;
use voxelization::triangulate::triangulate;

const UNIT: i64 = 1_000_000;

type Point3 = (i64, i64, i64);

fn mesh_of(positions: Vec<Point3>, indexes: Vec<u32>, tags: Vec<u32>) -> MaterialMesh {
    let tags = tags.into_iter().map(MaterialID::new).collect::<Vec<_>>();
    MaterialMesh::new(positions, indexes, tags).expect("Invalid mesh")
}

fn graph_of(nodes: Vec<(i64, i64)>, edges: Vec<(usize, usize)>) -> Graph<(i64, i64), ()> {
    Graph::from_elements(
        nodes
            .into_iter()
            .map(|node| Element::Node { weight: node })
            .chain(edges.into_iter().map(|(s, t)| Element::Edge {
                source: s,
                target: t,
                weight: (),
            })),
    )
}

fn edges_of(graph: &Graph<(i64, i64), ()>) -> Vec<((i64, i64), (i64, i64))> {
    graph
        .edge_indices()
        .map(|e| {
            let (a, b) = graph.edge_endpoints(e).unwrap();
            (graph[a], graph[b])
        })
        .collect()
}

fn doubled_area(t: &[(i64, i64); 3]) -> i64 {
    (t[1].0 - t[0].0) * (t[2].1 - t[0].1) - (t[1].1 - t[0].1) * (t[2].0 - t[0].0)
}

// ---- materials and meshes ----

#[test]
fn material_zero_is_no_tag() {
    assert!(MaterialID::checked(0).is_none());
    assert_eq!(MaterialID::checked(7).unwrap().get(), 7);
    assert_eq!(MaterialID::default().get(), 1);
    assert_eq!(MaterialID::new(3), MaterialID::new(3));
    assert!(!MaterialID::new(3).same(MaterialID::new(4)));
}

#[test]
fn axis_unit_directions() {
    assert_eq!(Axis::X.unit_dir(), (1, 0, 0));
    assert_eq!(Axis::Y.unit_dir(), (0, 1, 0));
    assert_eq!(Axis::Z.unit_dir(), (0, 0, 1));
    assert_eq!(Axis::Y.along((4, 5, 6)), 5);
    assert_eq!(Axis::Z.replace((4, 5, 6), 9), (4, 5, 9));
}

#[test]
fn mesh_rejects_bad_indices() {
    let tag = MaterialID::default();
    let points = vec![(0, 0, 0), (UNIT, 0, 0), (0, UNIT, 0)];
    assert!(MaterialMesh::new(points.clone(), vec![0, 1, 2], vec![tag]).is_some());
    // an index that names no vertex
    assert!(MaterialMesh::new(points.clone(), vec![0, 1, 3], vec![tag]).is_none());
    // indices that do not come three to a tag
    assert!(MaterialMesh::new(points.clone(), vec![0, 1], vec![tag]).is_none());
    assert!(MaterialMesh::new(points.clone(), vec![0, 1, 2], vec![tag, tag]).is_none());
    // a coordinate out of range
    let far = vec![(0, 0, 0), (500_000_001, 0, 0), (0, UNIT, 0)];
    assert!(MaterialMesh::new(far, vec![0, 1, 2], vec![tag]).is_none());
}

#[test]
fn mesh_translation_moves_every_vertex() {
    let mesh = mesh_of(vec![(0, 0, 0), (UNIT, 0, 0), (0, UNIT, 0)], vec![0, 1, 2], vec![2]);
    let moved = mesh.translated((5, -6, 7)).unwrap();
    assert_eq!(moved.vertex_position(1), (UNIT + 5, -6, 7));
    assert_eq!(moved.face_vertices(0), (0, 1, 2));
    assert_eq!(moved.face_tag(0).get(), 2);
    assert!(mesh.translated((500_000_000, 0, 0)).is_none());
}

#[test]
fn mesh_counts_edges_once() {
    // two triangles that share an edge
    let mesh = mesh_of(
        vec![(0, 0, 0), (UNIT, 0, 0), (0, UNIT, 0), (UNIT, UNIT, 0)],
        vec![0, 1, 2, 3, 2, 1],
        vec![1, 1],
    );
    assert_eq!(mesh.num_vertices(), 4);
    assert_eq!(mesh.num_faces(), 2);
    assert_eq!(mesh.num_edges(), 5);
}

// ---- snapping onto slice planes ----

#[test]
fn snap_moves_only_near_vertices() {
    assert_eq!(snap(999_001, UNIT), UNIT);
    assert_eq!(snap(1_000_999, UNIT), UNIT);
    assert_eq!(snap(999_000, UNIT), 999_000);
    assert_eq!(snap(1_001_000, UNIT), 1_001_000);
    assert_eq!(snap(-999_500, UNIT), -UNIT);
    assert_eq!(snap(400, UNIT), 0);
    assert_eq!(snap(500_000, UNIT), 500_000);
}

#[test]
fn align_with_slice_planes_moves_along_one_axis() {
    let mut mesh = mesh_of(
        vec![(999_500, 999_500, 0), (2 * UNIT + 300, 5, 0), (UNIT / 2, UNIT, UNIT)],
        vec![0, 1, 2],
        vec![1],
    );
    mesh.align_with_slice_planes(Axis::X, UNIT);
    assert_eq!(mesh.vertex_position(0), (UNIT, 999_500, 0));
    assert_eq!(mesh.vertex_position(1), (2 * UNIT, 5, 0));
    assert_eq!(mesh.vertex_position(2), (UNIT / 2, UNIT, UNIT));
    assert_eq!(mesh.face_vertices(0), (0, 1, 2));
}

// ---- in-out gradients ----

fn prism_walls(low: i64, high: i64) -> (Vec<Point3>, Vec<u32>) {
    // two of the walls of a column over the unit square
    let positions = vec![
        (0, 0, low),
        (UNIT, 0, low),
        (UNIT, 0, high),
        (0, 0, high),
        (UNIT, UNIT, low),
        (UNIT, UNIT, high),
    ];
    let indexes = vec![0, 1, 2, 2, 3, 0, 1, 4, 5, 5, 2, 1];
    (positions, indexes)
}

#[test]
fn gradient_of_a_column() {
    let cell = UNIT * UNIT;

    // the foot of the column: its lower cap looks down
    let (mut positions, mut indexes) = prism_walls(0, UNIT);
    positions.push((0, UNIT, 0));
    indexes.extend(vec![0, 6, 4, 0, 4, 1]);
    let foot = mesh_of(positions, indexes, vec![1; 6]);
    assert_eq!(
        foot.axis_ranges_and_in_out_gradients(Axis::Z, cell),
        vec![(0, UNIT, -1)]
    );

    // the shaft: walls only
    let (positions, indexes) = prism_walls(UNIT, 2 * UNIT);
    let shaft = mesh_of(positions, indexes, vec![1; 4]);
    assert_eq!(
        shaft.axis_ranges_and_in_out_gradients(Axis::Z, cell),
        vec![(UNIT, 2 * UNIT, 0)]
    );

    // the head: its upper cap looks up
    let (mut positions, mut indexes) = prism_walls(2 * UNIT, 3 * UNIT);
    positions.push((0, UNIT, 3 * UNIT));
    indexes.extend(vec![3, 2, 5, 3, 5, 6]);
    let head = mesh_of(positions, indexes, vec![1; 6]);
    assert_eq!(
        head.axis_ranges_and_in_out_gradients(Axis::Z, cell),
        vec![(2 * UNIT, 3 * UNIT, 1)]
    );
}

#[test]
fn gradient_keeps_apart_what_does_not_overlap() {
    // two caps far apart along the axis, each of half a cross section
    let mesh = mesh_of(
        vec![
            (0, 0, 0),
            (0, UNIT, 0),
            (UNIT, UNIT, 0),
            (0, 0, 5 * UNIT),
            (UNIT, UNIT, 5 * UNIT),
            (0, UNIT, 5 * UNIT),
        ],
        vec![3, 4, 5, 0, 1, 2],
        vec![1, 1],
    );
    // half a cross section rounds away from zero
    assert_eq!(
        mesh.axis_ranges_and_in_out_gradients(Axis::Z, UNIT * UNIT),
        vec![(0, 0, -1), (5 * UNIT, 5 * UNIT, 1)]
    );
    // a quarter rounds to nothing
    assert_eq!(
        mesh.axis_ranges_and_in_out_gradients(Axis::Z, 2 * UNIT * UNIT),
        vec![(0, 0, 0), (5 * UNIT, 5 * UNIT, 0)]
    );
    // seen along another axis the caps cover one stretch and turn nothing
    assert_eq!(
        mesh.axis_ranges_and_in_out_gradients(Axis::X, UNIT * UNIT),
        vec![(0, UNIT, 0)]
    );
}

// ---- slabs ----

#[test]
fn contour_slice_sorts_faces_into_slabs() {
    let mesh = mesh_of(
        vec![
            (0, 0, 0),
            (UNIT, 0, 0),
            (0, 0, UNIT),
            (UNIT, 0, UNIT),
            (0, 0, 3 * UNIT),
            (UNIT, 0, 3 * UNIT),
            (0, 0, 2 * UNIT),
        ],
        // two faces in the lowest slab, none in the next, one in the third,
        // and one whose centre lies on the plane at one unit
        vec![1, 3, 2, 0, 1, 2, 6, 5, 4, 2, 3, 2],
        vec![5, 6, 7, 8],
    );
    let slabs = mesh.contour_slice(Axis::Z, UNIT, 0, 3 * UNIT);
    assert_eq!(slabs.len(), 2);

    let (lower, part) = &slabs[0];
    assert_eq!(*lower, 0);
    assert_eq!(part.num_faces(), 2);
    assert_eq!(part.num_vertices(), 4);
    assert_eq!(part.face_vertices(0), (0, 1, 2));
    assert_eq!(part.face_vertices(1), (3, 0, 2));
    assert_eq!(part.vertex_position(0), (UNIT, 0, 0));
    assert_eq!(part.vertex_position(1), (UNIT, 0, UNIT));
    assert_eq!(part.vertex_position(2), (0, 0, UNIT));
    assert_eq!(part.vertex_position(3), (0, 0, 0));
    assert_eq!(part.face_tag(0).get(), 5);
    assert_eq!(part.face_tag(1).get(), 6);

    let (lower, part) = &slabs[1];
    assert_eq!(*lower, 2 * UNIT);
    assert_eq!(part.num_faces(), 1);
    assert_eq!(part.num_vertices(), 3);
    assert_eq!(part.face_positions(0), ((0, 0, 2 * UNIT), (UNIT, 0, 3 * UNIT), (0, 0, 3 * UNIT)));
    assert_eq!(part.face_tag(0).get(), 7);
}

// ---- contouring ----

#[test]
fn orient_edge_runs_up_the_axis() {
    let up = orient_edge(3, 8, 10, 11);
    assert_eq!((up.min, up.max, up.halfedge, up.triangulation), (3, 8, 10, false));
    let down = orient_edge(8, 3, 10, 11);
    assert_eq!((down.min, down.max, down.halfedge, down.triangulation), (3, 8, 11, false));
}

#[test]
fn slice_bounds_reach_past_the_mesh() {
    assert_eq!(slice_bounds(200_000, 2_500_000, UNIT), (0, 3 * UNIT));
    // a mesh that ends on a plane gets a full step more
    assert_eq!(slice_bounds(0, 2 * UNIT, UNIT), (-UNIT, 3 * UNIT));
    assert_eq!(slice_bounds(-1_500_000, -200_000, UNIT), (-2 * UNIT, 0));
    // within a hundred-thousandth of a step above a plane counts as on it
    assert_eq!(slice_bounds(5, UNIT - 5, UNIT), (-UNIT, 2 * UNIT));
    assert_eq!(slice_bounds(20, UNIT - 20, UNIT), (0, UNIT));
}

fn range(min: i64, max: i64, halfedge: u32) -> EdgeRange {
    EdgeRange { min, max, halfedge, triangulation: false }
}

#[test]
fn sweep_hands_out_the_edges_that_a_plane_meets() {
    let edges = vec![
        range(0, 2_500_000, 0),
        range(1_200_000, 1_800_000, 1),
        range(0, 400_000, 2),
        range(UNIT, 3 * UNIT, 3),
        range(999_995, 2 * UNIT, 4),
    ];
    let mut sweep = ContourSweep::new(&edges, UNIT, 0).unwrap();
    assert!(!sweep.is_done());

    // the plane at one unit: the short edge below it is dropped, the edges
    // that start on it or next to it are met
    let step = sweep.begin_plane().unwrap();
    assert_eq!(step.slice_coord, UNIT);
    assert_eq!(
        step.edges.iter().map(|e| e.halfedge).collect::<Vec<_>>(),
        vec![0, 4, 3]
    );
    assert!(step.tri_edges.is_empty());

    // the upper part of the first edge comes back with a triangulation edge
    sweep.push_fragments(&vec![
        Fragment { halfedge: 7, max: 2_500_000 },
        Fragment { halfedge: 8, max: 1_400_000 },
    ]);
    sweep.advance();

    let step = sweep.begin_plane().unwrap();
    assert_eq!(step.slice_coord, 2 * UNIT);
    assert_eq!(
        step.edges.iter().map(|e| (e.halfedge, e.min)).collect::<Vec<_>>(),
        vec![(7, UNIT)]
    );
    // the triangulation edge and the inner edge end below the plane
    assert!(step.tri_edges.is_empty());
    assert!(sweep.is_done());
    assert!(sweep.begin_plane().is_none());
}

#[test]
fn sweep_keeps_triangulation_edges_apart() {
    let mut sweep = ContourSweep::new(&vec![range(0, 3 * UNIT, 0)], UNIT, 0).unwrap();
    let step = sweep.begin_plane().unwrap();
    assert_eq!(step.edges.len(), 1);
    sweep.push_fragments(&vec![
        Fragment { halfedge: 1, max: 3 * UNIT },
        Fragment { halfedge: 2, max: 2_500_000 },
        Fragment { halfedge: 3, max: 2 * UNIT },
    ]);
    sweep.advance();
    let step = sweep.begin_plane().unwrap();
    assert_eq!(step.slice_coord, 2 * UNIT);
    assert_eq!(
        step.tri_edges.iter().map(|e| e.halfedge).collect::<Vec<_>>(),
        vec![3, 2]
    );
    assert_eq!(
        step.edges.iter().map(|e| e.halfedge).collect::<Vec<_>>(),
        vec![1]
    );
}

#[test]
fn sweep_refuses_bad_input() {
    assert!(ContourSweep::new(&vec![], 0, 0).is_none());
    assert!(ContourSweep::new(&vec![], -UNIT, 0).is_none());
    assert!(ContourSweep::new(&vec![range(0, 500_000_001, 0)], UNIT, 0).is_none());
    assert!(ContourSweep::new(&vec![], UNIT, 500_000_001).is_none());
    let mut empty = ContourSweep::new(&vec![], UNIT, 0).unwrap();
    assert!(empty.is_done());
    assert!(empty.begin_plane().is_none());
}

#[test]
fn split_plan_cuts_where_the_edge_crosses() {
    let plan = split_plan(
        Axis::Y,
        UNIT,
        range_plain(0, 4 * UNIT),
        (100, 0, -8),
        (500, 4 * UNIT, 8),
    );
    assert!(plan.snap_lower.is_none());
    assert!(plan.snap_upper.is_none());
    assert_eq!(plan.action, SplitAction::Cut((200, UNIT, -4)));

    // a third of the way, rounded to the lattice
    let plan = split_plan(Axis::X, 1, range_plain(0, 3), (0, 0, 0), (3, 10, -10));
    assert_eq!(plan.action, SplitAction::Drop);
    let plan = split_plan(
        Axis::X,
        100,
        range_plain(0, 300),
        (0, 0, 0),
        (300, 10, -10),
    );
    assert_eq!(plan.action, SplitAction::Cut((100, 3, -3)));
}

fn range_plain(min: i64, max: i64) -> EdgeRange {
    range(min, max, 0)
}

#[test]
fn split_plan_leaves_an_edge_with_an_end_on_the_plane() {
    // the lower end on the plane: no cut, the edge waits
    let plan = split_plan(Axis::Z, UNIT, range_plain(UNIT, 2 * UNIT), (0, 0, UNIT), (0, 0, 2 * UNIT));
    assert_eq!(plan.action, SplitAction::Keep);
    assert_eq!(plan.snap_lower, Some((0, 0, UNIT)));
    assert!(plan.snap_upper.is_none());

    // the upper end on the plane: no cut, nothing left above
    let plan = split_plan(Axis::Z, UNIT, range_plain(0, UNIT), (0, 0, 0), (7, 0, UNIT));
    assert_eq!(plan.action, SplitAction::Drop);
    assert!(plan.snap_lower.is_none());
    assert_eq!(plan.snap_upper, Some((7, 0, UNIT)));

    // an end next to the plane is drawn onto it
    let plan = split_plan(
        Axis::Z,
        UNIT,
        range_plain(UNIT - 9, 2 * UNIT),
        (3, 4, UNIT - 9),
        (0, 0, 2 * UNIT),
    );
    assert_eq!(plan.snap_lower, Some((3, 4, UNIT)));
    assert_eq!(plan.action, SplitAction::Keep);

    // ten steps away is not near
    let plan = split_plan(
        Axis::Z,
        UNIT,
        range_plain(UNIT - 10, UNIT + 10),
        (0, 0, UNIT - 10),
        (20, 0, UNIT + 10),
    );
    assert!(plan.snap_lower.is_none());
    assert!(plan.snap_upper.is_none());
    assert_eq!(plan.action, SplitAction::Cut((10, 0, UNIT)));
}

#[test]
fn upward_fragments_put_the_cut_edge_first() {
    let spokes = vec![
        Spoke { halfedge: 4, from: 10, to: 5 },
        Spoke { halfedge: 5, from: 10, to: 12 },
        Spoke { halfedge: 6, from: 10, to: 30 },
        Spoke { halfedge: 7, from: 10, to: 10 },
        Spoke { halfedge: 8, from: 10, to: 11 },
    ];
    assert_eq!(
        upward_fragments(&spokes, 6),
        vec![
            Fragment { halfedge: 6, max: 30 },
            Fragment { halfedge: 5, max: 12 },
            Fragment { halfedge: 8, max: 11 },
        ]
    );
    // the cut edge itself may end on the plane
    assert_eq!(
        upward_fragments(&spokes, 7),
        vec![
            Fragment { halfedge: 5, max: 12 },
            Fragment { halfedge: 6, max: 30 },
            Fragment { halfedge: 8, max: 11 },
        ]
    );
}

// ---- collapsing short edges ----

#[test]
fn collapse_pass_skips_edges_of_removed_vertices() {
    assert!(is_small_edge(999_999));
    assert!(!is_small_edge(1_000_000));

    let mut pass = CollapsePass::new(vec![(0, 1), (1, 2), (2, 3), (3, 0)]);
    assert_eq!(pass.next_candidate(), Some((0, 1)));
    // the edge was collapsed and its first vertex survived
    pass.collapsed(0, 1, 0);
    // the next edge has lost a vertex
    assert_eq!(pass.next_candidate(), Some((2, 3)));
    // not short: nothing happens
    assert_eq!(pass.next_candidate(), Some((3, 0)));
    pass.collapsed(3, 0, 0);
    assert_eq!(pass.next_candidate(), None);
    assert_eq!(pass.next_candidate(), None);
}

#[test]
fn collapse_pass_removes_the_vertex_that_did_not_survive() {
    let mut pass = CollapsePass::new(vec![(5, 6), (5, 7), (6, 7), (6, 8)]);
    assert_eq!(pass.next_candidate(), Some((5, 6)));
    // a vertex that is neither of the two survived: the second one goes
    pass.collapsed(5, 6, 6);
    assert_eq!(pass.next_candidate(), Some((6, 7)));
    assert_eq!(pass.next_candidate(), Some((6, 8)));
    assert_eq!(pass.next_candidate(), None);
}

// ---- decimation ----

#[test]
fn uniform_materials() {
    let a = MaterialID::new(1);
    let b = MaterialID::new(2);
    assert!(is_uniform(&vec![]));
    assert!(is_uniform(&vec![a]));
    assert!(is_uniform(&vec![a, a, a]));
    assert!(!is_uniform(&vec![a, a, b]));
    assert!(is_redundant(true, &vec![a, a], true, true));
    assert!(!is_redundant(false, &vec![a, a], true, true));
    assert!(!is_redundant(true, &vec![a, b], true, true));
    assert!(!is_redundant(true, &vec![a, a], false, true));
    assert!(!is_redundant(true, &vec![a, a], true, false));
}

#[test]
fn flip_is_safe_where_the_faces_stay_convex() {
    // the edge runs from the origin up the second axis; the faces on its
    // two sides make a convex kite
    assert!(is_flip_safe((0, 0, 0), (0, 2, 0), (-2, 1, 0), (2, 1, 0)));
    // the far corner lies beyond the end of the edge: a concave turn
    assert!(!is_flip_safe((0, 0, 0), (0, 2, 0), (-2, 1, 0), (-1, 3, 0)));
    // three corners in a line
    assert!(!is_flip_safe((0, 0, 0), (0, 2, 0), (0, 1, 0), (2, 1, 0)));
}

#[test]
fn dissolve_flips_until_no_inner_edge_is_left() {
    let mut state = Dissolve::new(&vec![
        Neighbour { halfedge: 1, safe: true },
        Neighbour { halfedge: 2, safe: false },
        Neighbour { halfedge: 3, safe: true },
    ]);
    assert_eq!(state.next_step(), DissolveStep::Flip(3));
    state.flipped(
        Neighbour { halfedge: 2, safe: true },
        Neighbour { halfedge: 1, safe: true },
    );
    // edge 2 has become safe and is flipped next; edge 1 was in the list
    assert_eq!(state.next_step(), DissolveStep::Flip(2));
    state.flipped(
        Neighbour { halfedge: 9, safe: false },
        Neighbour { halfedge: 1, safe: true },
    );
    assert_eq!(state.next_step(), DissolveStep::Flip(1));
    state.flipped(
        Neighbour { halfedge: 9, safe: false },
        Neighbour { halfedge: 8, safe: false },
    );
    assert_eq!(state.next_step(), DissolveStep::Remove);
}

#[test]
fn dissolve_gives_up_without_a_safe_edge() {
    let mut state = Dissolve::new(&vec![Neighbour { halfedge: 1, safe: false }]);
    assert_eq!(state.next_step(), DissolveStep::GiveUp);
    let mut none = Dissolve::new(&vec![]);
    assert_eq!(none.next_step(), DissolveStep::Remove);
}

// ---- cube faces ----

#[test]
fn cube_face_frames() {
    let p = (100, 200, 500_000);
    assert_eq!(CubeFace::PosZ.to_local(p), (100, 200, 0));
    assert_eq!(CubeFace::NegZ.to_local((100, 200, -500_000)), (-100, 200, 0));
    assert_eq!(CubeFace::PosX.to_local((500_000, 1, 2)), (1, 2, 0));
    assert_eq!(CubeFace::NegX.to_local((-500_000, 1, 2)), (-1, 2, 0));
    assert_eq!(CubeFace::PosY.to_local((1, 500_000, 2)), (2, 1, 0));
    assert_eq!(CubeFace::NegY.to_local((1, -500_000, 2)), (-2, 1, 0));
    for face in CubeFace::all() {
        let q = (123, -456);
        let lifted = face.lift(q);
        assert_eq!(face.to_local(lifted), (123, -456, 0));
    }
}

#[test]
fn triangulate_a_square() {
    let h = 500_000;
    let outline = graph_of(
        vec![(-h, -h), (h, -h), (h, h), (-h, h)],
        vec![(0, 1), (1, 2), (2, 3), (3, 0)],
    );
    let triangles = triangulate(&outline).unwrap();
    assert_eq!(triangles.len(), 2);
    for t in &triangles {
        assert!(doubled_area(t) > 0);
    }
    let total: i64 = triangles.iter().map(doubled_area).sum();
    assert_eq!(total, 2 * UNIT * UNIT);
}

#[test]
fn triangulate_a_square_with_a_hole() {
    let h = 500_000;
    let q = 250_000;
    let outline = graph_of(
        vec![(-h, -h), (h, -h), (h, h), (-h, h), (-q, -q), (q, -q), (q, q), (-q, q)],
        vec![(0, 1), (1, 2), (2, 3), (3, 0), (4, 7), (7, 6), (6, 5), (5, 4)],
    );
    let triangles = triangulate(&outline).unwrap();
    assert_eq!(triangles.len(), 8);
    for t in &triangles {
        assert!(doubled_area(t) > 0);
    }
    let total: i64 = triangles.iter().map(doubled_area).sum();
    assert_eq!(total, 2 * (UNIT * UNIT - (UNIT / 2) * (UNIT / 2)));
}

#[test]
fn triangulate_refuses_nodes_outside_the_square() {
    let outline = graph_of(vec![(0, 0), (600_000, 0), (0, 100)], vec![(0, 1), (1, 2), (2, 0)]);
    assert!(triangulate(&outline).is_none());
    assert_eq!(triangulate(&graph_of(vec![], vec![])).unwrap().len(), 0);
}

fn hollow() -> MaterialMesh {
    // a tetrahedron turned inside out: a hollow in a solid
    let q = 250_000;
    mesh_of(
        vec![(-q, -q, -q), (q, q, -q), (q, -q, q), (-q, q, q)],
        vec![0, 2, 1, 2, 0, 3, 1, 3, 0, 3, 1, 2],
        vec![4, 4, 4, 4],
    )
}

fn solid() -> MaterialMesh {
    let q = 250_000;
    mesh_of(
        vec![(-q, -q, -q), (q, q, -q), (q, -q, q), (-q, q, q)],
        vec![0, 1, 2, 2, 3, 0, 1, 0, 3, 3, 2, 1],
        vec![4, 4, 4, 4],
    )
}

#[test]
fn faces_of_a_cube_around_a_hollow_are_filled() {
    let mesh = hollow();
    for face in CubeFace::all() {
        let fill = mesh.fill_cube_face(face).unwrap();
        assert_eq!(fill.len(), 2);
        for triangle in &fill {
            for corner in triangle {
                assert_eq!(face.to_local(*corner).2, 0);
            }
        }
    }
    let cut = mesh.intersect_unit_cube((-500_000, -500_000, -500_000)).unwrap();
    assert_eq!(cut.num_faces(), 4 + 12);
    assert_eq!(cut.num_vertices(), 4 + 8);
    assert_eq!(cut.num_edges(), 6 + 18);
    for f in 0..cut.num_faces() {
        assert_eq!(cut.face_tag(f).get(), 4);
    }
}

#[test]
fn faces_of_a_cube_around_a_solid_stay_open() {
    let mesh = solid();
    for face in CubeFace::all() {
        assert_eq!(mesh.fill_cube_face(face).unwrap().len(), 0);
    }
    let cut = mesh.intersect_unit_cube((-500_000, -500_000, -500_000)).unwrap();
    assert_eq!(cut.num_faces(), 4);
    assert_eq!(cut.num_vertices(), 4);
}

#[test]
fn intersect_unit_cube_keeps_faces_and_materials() {
    let mesh = mesh_of(
        vec![(0, UNIT, 0), (UNIT, 0, 0), (UNIT, 0, UNIT), (0, UNIT, UNIT)],
        vec![0, 1, 2, 2, 3, 0],
        vec![3, 9],
    );
    let cut = mesh.intersect_unit_cube((0, 0, 0)).unwrap();
    assert_eq!(cut.face_tag(0).get(), 3);
    assert_eq!(cut.face_tag(1).get(), 9);
    assert_eq!(
        cut.face_positions(0),
        ((0, UNIT, 0), (UNIT, 0, 0), (UNIT, 0, UNIT))
    );
    assert_eq!(
        cut.face_positions(1),
        ((UNIT, 0, UNIT), (0, UNIT, UNIT), (0, UNIT, 0))
    );
    assert_eq!(cut.num_faces(), 8);
}

#[test]
fn intersect_unit_cube_refuses_what_it_cannot_close() {
    let mesh = mesh_of(vec![(0, 0, 0), (UNIT, 0, 0), (0, UNIT, 0)], vec![0, 1, 2], vec![1]);
    assert!(mesh.intersect_unit_cube((600_000_000, 0, 0)).is_none());
    // a mesh that reaches far out of the cube
    let wide = mesh_of(
        vec![(0, 0, 0), (50 * UNIT, 0, 0), (0, UNIT, 0)],
        vec![0, 1, 2],
        vec![1],
    );
    assert!(wide.intersect_unit_cube((0, 0, 0)).is_none());
}

#[test]
fn outline_runs_against_the_boundary() {
    // a boundary edge across the square with the inside on its right
    let boundary = graph_of(vec![(-500_000, -250_000), (500_000, -250_000)], vec![(0, 1)]);
    let outline = intersect_center_unit_square(&solid(), boundary).unwrap();
    let mut edges = edges_of(&outline);
    edges.sort();
    let mut expected = vec![
        ((500_000, -250_000), (-500_000, -250_000)),
        ((-500_000, -250_000), (-500_000, -500_000)),
        ((-500_000, -500_000), (500_000, -500_000)),
        ((500_000, -500_000), (500_000, -250_000)),
    ];
    expected.sort();
    assert_eq!(edges, expected);
    let triangles = triangulate(&outline).unwrap();
    assert_eq!(triangles.len(), 2);
    let total: i64 = triangles.iter().map(doubled_area).sum();
    assert_eq!(total, 2 * UNIT * (UNIT / 4));
}

#[test]
fn outline_refuses_nodes_outside_the_square() {
    let boundary = graph_of(vec![(-500_000, 0), (500_001, 0)], vec![(0, 1)]);
    assert!(intersect_center_unit_square(&solid(), boundary).is_none());
}

// ---- soups ----

#[test]
fn manifold_keeps_every_corner_in_place() {
    let triangles = vec![
        [(0, 0, 0), (UNIT, 0, 0), (0, UNIT, 0)],
        [(UNIT, UNIT, 0), (0, UNIT, 0), (UNIT, 0, 0)],
    ];
    let mesh = manifold_from_triangle_soup(triangles.clone());
    assert_eq!(mesh.num_faces(), 2);
    for (f, triangle) in triangles.iter().enumerate() {
        let p = mesh.face_positions(f);
        assert_eq!([p.0, p.1, p.2], *triangle);
        assert_eq!(mesh.face_tag(f).get(), 1);
    }
    // vertices are numbered in the order of their first corner
    assert_eq!(mesh.face_vertices(0), (0, 1, 2));
    assert_eq!(mesh.face_vertices(1), (3, 2, 1));
}

#[test]
fn manifold_does_not_join_faces_that_wind_alike() {
    // two triangles over one edge, both running along it the same way
    let triangles = vec![
        [(0, 0, 0), (UNIT, 0, 0), (0, UNIT, 0)],
        [(0, 0, 0), (UNIT, 0, 0), (0, 0, UNIT)],
    ];
    let mesh = manifold_from_triangle_soup(triangles);
    assert_eq!(mesh.num_vertices(), 6);
    assert_eq!(mesh.num_edges(), 6);
}

// ---- closed and manifold meshes ----

#[test]
fn closed_mesh_turns_nothing_along_any_axis() {
    let mesh = solid();
    for axis in [Axis::X, Axis::Y, Axis::Z] {
        let stretches = mesh.axis_ranges_and_in_out_gradients(axis, 1);
        // the faces overlap along every axis, and their areas cancel
        assert_eq!(stretches, vec![(-250_000, 250_000, 0)]);
    }
}

#[test]
fn manifold_mesh_is_rebuilt_from_its_faces() {
    let mesh = solid();
    let soup = (0..mesh.num_faces())
        .map(|f| {
            let p = mesh.face_positions(f);
            [p.0, p.1, p.2]
        })
        .collect::<Vec<_>>();
    let rebuilt = manifold_from_triangle_soup(soup);
    assert_eq!(rebuilt.num_vertices(), mesh.num_vertices());
    assert_eq!(rebuilt.num_edges(), mesh.num_edges());
    assert_eq!(rebuilt.num_faces(), mesh.num_faces());
    let own = mesh.index_buffer();
    let new = rebuilt.index_buffer();
    for i in 0..own.len() {
        for j in 0..own.len() {
            assert_eq!(own[i] == own[j], new[i] == new[j]);
        }
        assert_eq!(
            rebuilt.vertex_position(new[i] as usize),
            mesh.vertex_position(own[i] as usize)
        );
    }
    // a closed surface like a ball: vertices - edges + faces = 2
    assert_eq!(
        rebuilt.num_vertices() as i64 - rebuilt.num_edges() as i64 + rebuilt.num_faces() as i64,
        2
    );
}

#[test]
fn soup_out_of_range_is_refused() {
    let near = vec![[(0, 0, 0), (UNIT, 0, 0), (0, UNIT, 0)]];
    let mesh = try_manifold_from_triangle_soup(near).unwrap();
    assert_eq!(mesh.num_vertices(), 3);
    let far = vec![[(0, 0, 0), (10_000_001, 0, 0), (0, UNIT, 0)]];
    assert!(try_manifold_from_triangle_soup(far).is_none());
    let edge = vec![[(0, 0, 0), (10_000_000, 0, 0), (0, -10_000_000, 0)]];
    assert!(try_manifold_from_triangle_soup(edge).is_some());
}
