use std::collections::HashMap;

use float_ord::FloatOrd;
use tri_mesh::prelude::vec3;
use tri_mesh::prelude::HalfEdgeID;
use tri_mesh::prelude::InnerSpace;
use tri_mesh::prelude::Mesh;
use tri_mesh::prelude::MeshBuilder;
use tri_mesh::prelude::Vec3;
use tri_mesh::prelude::VertexID;
use voxelization::collapse::is_small_edge;
use voxelization::collapse::CollapsePass;
use voxelization::contour::orient_edge;
use voxelization::contour::slice_bounds;
use voxelization::contour::split_plan;
use voxelization::contour::upward_fragments;
use voxelization::contour::ContourSweep;
use voxelization::contour::EdgeRange;
use voxelization::contour::Fragment;
use voxelization::contour::SplitAction;
use voxelization::contour::Spoke;
use voxelization::decimate::is_flip_safe;
use voxelization::decimate::is_redundant;
use voxelization::decimate::Dissolve;
use voxelization::decimate::DissolveStep;
use voxelization::decimate::Neighbour;
use voxelization::material_mesh::Axis;
use voxelization::material_mesh::MaterialID;

const EPSILON: f64 = 1e-5;

fn to_lattice(x: f64) -> i64 {
    (x * 1e6).round() as i64
}

fn from_lattice(c: i64) -> f64 {
    c as f64 / 1e6
}

fn point_to_lattice(p: Vec3) -> (i64, i64, i64) {
    (to_lattice(p.x), to_lattice(p.y), to_lattice(p.z))
}

fn point_from_lattice(p: (i64, i64, i64)) -> Vec3 {
    vec3(from_lattice(p.0), from_lattice(p.1), from_lattice(p.2))
}

fn axis_index(axis: Axis) -> usize {
    match axis {
        Axis::X => 0,
        Axis::Y => 1,
        Axis::Z => 2,
    }
}

/// Numbers for the half-edges and vertices of a mesh.
struct Ids<T> {
    list: Vec<T>,
    keys: HashMap<T, u32>,
}

impl<T: Copy + Eq + std::hash::Hash> Ids<T> {
    fn new() -> Self {
        Ids {
            list: Vec::new(),
            keys: HashMap::new(),
        }
    }

    fn key(&mut self, id: T) -> u32 {
        if let Some(key) = self.keys.get(&id) {
            return *key;
        }
        let key = self.list.len() as u32;
        self.list.push(id);
        self.keys.insert(id, key);
        key
    }

    fn id(&self, key: u32) -> T {
        self.list[key as usize]
    }
}

fn create_mesh(positions: Vec<f64>, indexes: Vec<u32>) -> Mesh {
    MeshBuilder::new()
        .with_positions(positions)
        .with_indices(indexes)
        .build()
        .expect("Invalid mesh")
}

fn halfedge_vertices(mesh: &Mesh, halfedge: HalfEdgeID) -> (VertexID, VertexID) {
    let mut walker = mesh.walker_from_halfedge(halfedge);
    let to = walker.vertex_id().unwrap();
    let from = walker.as_twin().vertex_id().unwrap();
    (from, to)
}

fn flippable(mesh: &Mesh, e: HalfEdgeID) -> bool {
    if mesh.is_edge_on_boundary(e) {
        return false;
    }
    let (from, to) = halfedge_vertices(mesh, e);
    let after_to = mesh.walker_from_halfedge(e).as_next().vertex_id().unwrap();
    let before_from = mesh
        .walker_from_halfedge(e)
        .as_twin()
        .as_next()
        .vertex_id()
        .unwrap();
    is_flip_safe(
        point_to_lattice(mesh.vertex_position(from)),
        point_to_lattice(mesh.vertex_position(to)),
        point_to_lattice(mesh.vertex_position(before_from)),
        point_to_lattice(mesh.vertex_position(after_to)),
    )
}

fn dissolve_boundary_vertex(mesh: &mut Mesh, vertex: VertexID) {
    let mut ids = Ids::new();
    let inner = mesh
        .vertex_halfedge_iter(vertex)
        .filter(|e| !mesh.is_edge_on_boundary(*e))
        .collect::<Vec<_>>()
        .into_iter()
        .map(|e| Neighbour {
            halfedge: ids.key(e),
            safe: flippable(mesh, e),
        })
        .collect::<Vec<_>>();
    let mut state = Dissolve::new(&inner);

    loop {
        match state.next_step() {
            DissolveStep::Remove => break,
            DissolveStep::GiveUp => return,
            DissolveStep::Flip(key) => {
                let halfedge_id = ids.id(key);
                if mesh.flip_edge(halfedge_id).is_err() {
                    return;
                }
                let mut walker = mesh.walker_from_halfedge(halfedge_id);
                let prev = walker.previous_id().unwrap();
                let next = walker.as_next().twin_id().unwrap();
                let previous = Neighbour {
                    halfedge: ids.key(prev),
                    safe: flippable(mesh, prev),
                };
                let next = Neighbour {
                    halfedge: ids.key(next),
                    safe: flippable(mesh, next),
                };
                assert!(state.inner_left() > 0);
                state.flipped(previous, next);
            }
        }
    }

    let faces = mesh
        .vertex_halfedge_iter(vertex)
        .flat_map(|e| mesh.walker_from_halfedge(e).face_id())
        .collect::<Vec<_>>();
    for face in faces {
        mesh.remove_face(face);
    }
}

fn decimate(mesh: &mut Mesh) {
    let vertex_ids = mesh.vertex_iter().collect::<Vec<_>>();
    for vertex_id in vertex_ids {
        let normal = mesh.vertex_normal(vertex_id);
        let faces = mesh
            .vertex_halfedge_iter(vertex_id)
            .flat_map(|e| mesh.walker_from_halfedge(e).face_id())
            .collect::<Vec<_>>();
        let materials = vec![MaterialID::default(); faces.len()];
        let min_dot = faces
            .iter()
            .map(|f| FloatOrd(mesh.face_normal(*f).dot(normal)))
            .min();
        if let Some(min_dot) = min_dot {
            let on_boundary = mesh.is_vertex_on_boundary(vertex_id);
            let flat = min_dot.0 > 1.0 - EPSILON;
            let dirs = mesh
                .vertex_halfedge_iter(vertex_id)
                .filter(|e| mesh.is_edge_on_boundary(*e))
                .map(|e| {
                    let (from, to) = halfedge_vertices(mesh, e);
                    (mesh.vertex_position(to) - mesh.vertex_position(from)).normalize()
                })
                .collect::<Vec<_>>();
            let straight = dirs.len() >= 2 && dirs[0].dot(dirs[1]) < -1.0 + EPSILON;
            if is_redundant(on_boundary, &materials, flat, straight) {
                dissolve_boundary_vertex(mesh, vertex_id);
            }
        }
    }
}

fn split_edge(
    mesh: &mut Mesh,
    axis: Axis,
    slice_coord: i64,
    range: EdgeRange,
    ids: &mut Ids<HalfEdgeID>,
) -> Vec<Fragment> {
    let axis_id = axis_index(axis);
    let halfedge_id = ids.id(range.halfedge);
    let (v0, v1) = halfedge_vertices(mesh, halfedge_id);
    let lower = point_to_lattice(mesh.vertex_position(v0));
    let upper = point_to_lattice(mesh.vertex_position(v1));
    assert!(range.min - 10 < slice_coord && range.max + 10 > slice_coord);
    let plan = split_plan(axis, slice_coord, range, lower, upper);

    if let Some(position) = plan.snap_lower {
        mesh.move_vertex_to(v0, point_from_lattice(position));
    }
    if let Some(position) = plan.snap_upper {
        mesh.move_vertex_to(v1, point_from_lattice(position));
    }

    match plan.action {
        SplitAction::Drop => vec![],
        SplitAction::Keep => vec![Fragment {
            halfedge: range.halfedge,
            max: to_lattice(mesh.vertex_position(v1)[axis_id]),
        }],
        SplitAction::Cut(position) => {
            let vertex_id = mesh.split_edge(halfedge_id, point_from_lattice(position));
            let split = mesh.connecting_edge(vertex_id, v1).unwrap();
            let spokes = mesh
                .vertex_halfedge_iter(vertex_id)
                .collect::<Vec<_>>()
                .into_iter()
                .map(|h| {
                    let (_, to) = halfedge_vertices(mesh, h);
                    Spoke {
                        halfedge: ids.key(h),
                        from: slice_coord,
                        to: to_lattice(mesh.vertex_position(to)[axis_id]),
                    }
                })
                .collect::<Vec<_>>();
            upward_fragments(&spokes, ids.key(split))
        }
    }
}

fn axis_contour(mesh: &mut Mesh, axis: Axis, spacing: f64, min_slice: f64) {
    let axis_id = axis_index(axis);
    let mut ids = Ids::new();
    let edges = mesh.edge_iter().collect::<Vec<_>>();
    let ranges = edges
        .into_iter()
        .map(|halfedge_id| {
            let (from, to) = halfedge_vertices(mesh, halfedge_id);
            let twin = mesh.walker_from_halfedge(halfedge_id).twin_id().unwrap();
            orient_edge(
                to_lattice(mesh.vertex_position(from)[axis_id]),
                to_lattice(mesh.vertex_position(to)[axis_id]),
                ids.key(halfedge_id),
                ids.key(twin),
            )
        })
        .collect::<Vec<_>>();
    let mut sweep = ContourSweep::new(&ranges, to_lattice(spacing), to_lattice(min_slice)).unwrap();

    while let Some(step) = sweep.begin_plane() {
        for range in step.edges {
            let pieces = split_edge(mesh, axis, step.slice_coord, range, &mut ids);
            assert!(pieces.iter().all(|piece| piece.max > sweep.current_plane()));
            sweep.push_fragments(&pieces);
        }
        for range in step.tri_edges {
            mesh.flip_edge(ids.id(range.halfedge))
                .expect("Could not flip triangulation edge");
        }
        sweep.advance();
    }
}

fn contour(mesh: &mut Mesh, axis: Axis, spacing: f64) {
    let axis_id = axis_index(axis);
    let extreme = mesh.extreme_coordinates();
    let (min, _) = slice_bounds(
        to_lattice(extreme.0[axis_id]),
        to_lattice(extreme.1[axis_id]),
        to_lattice(spacing),
    );
    axis_contour(mesh, axis, spacing, from_lattice(min));
}

/// Whether an edge of the mesh reaches further than the tolerance to both
/// sides of a slice plane.
fn some_edge_crosses_a_plane(mesh: &Mesh, axis: Axis, spacing: f64) -> bool {
    let axis_id = axis_index(axis);
    mesh.edge_iter().any(|e| {
        let (from, to) = halfedge_vertices(mesh, e);
        let a = mesh.vertex_position(from)[axis_id];
        let b = mesh.vertex_position(to)[axis_id];
        let (low, high) = if a < b { (a, b) } else { (b, a) };
        let mut plane = (low / spacing).floor() * spacing;
        let mut crossed = false;
        while plane <= high {
            if plane - low > EPSILON && high - plane > EPSILON {
                crossed = true;
            }
            plane += spacing;
        }
        crossed
    })
}

fn sorted_positions(mesh: &Mesh) -> Vec<(i64, i64, i64)> {
    let mut positions = mesh
        .vertex_iter()
        .map(|v| point_to_lattice(mesh.vertex_position(v)))
        .collect::<Vec<_>>();
    positions.sort();
    positions
}

#[test]
fn test_dissolve_boundary_vertex_simple() {
    let mut mesh = create_mesh(
        vec![0.0, 0.0, 0.0, 1.0, 0.0, 0.0, 2.0, 0.0, 0.0, 1.5, 1.0, 0.0],
        vec![0, 1, 3, 3, 1, 2],
    );

    let vertex = mesh.vertex_iter().collect::<Vec<_>>()[1];
    dissolve_boundary_vertex(&mut mesh, vertex);

    assert_eq!(mesh.no_vertices(), 3);
    assert_eq!(mesh.no_faces(), 1);
    assert!(!mesh.vertex_iter().collect::<Vec<_>>().contains(&vertex));
}

#[test]
fn test_dissolve_boundary_vertex_multiple_inner() {
    let mut mesh = create_mesh(
        vec![
            0.0, 0.0, 0.0, 1.0, 0.0, 0.0, 2.0, 0.0, 0.0, 1.5, 1.0, 0.0, 1.0, 1.0, 0.0,
        ],
        vec![0, 1, 4, 4, 1, 3, 3, 1, 2],
    );

    let vertex = mesh.vertex_iter().collect::<Vec<_>>()[1];
    dissolve_boundary_vertex(&mut mesh, vertex);

    assert_eq!(mesh.no_vertices(), 4);
    assert_eq!(mesh.no_faces(), 2);
    assert!(!mesh.vertex_iter().collect::<Vec<_>>().contains(&vertex));
}

#[test]
fn test_dissolve_boundary_vertex_concave() {
    let mut mesh = create_mesh(
        vec![
            0.0, 0.0, 0.0, 3.0, 0.0, 0.0, 6.0, 0.0, 0.0, 4.0, 1.0, 0.0, 3.0, 3.0, 0.0, 2.0, 1.0,
            0.0,
        ],
        vec![0, 1, 5, 5, 1, 4, 4, 1, 3, 3, 1, 2],
    );

    let v = mesh.vertex_iter().collect::<Vec<_>>();
    dissolve_boundary_vertex(&mut mesh, v[1]);

    assert_eq!(mesh.no_vertices(), 5);
    assert_eq!(mesh.no_faces(), 3);
    assert!(!mesh.vertex_iter().collect::<Vec<_>>().contains(&v[1]));
    assert!(
        mesh.vertex_halfedge_iter(v[3])
            .map(|e| halfedge_vertices(&mesh, e).1)
            .collect::<Vec<_>>()
            .contains(&v[5]),
        "Triangulation doesn't respect concave vertices"
    );
}

#[test]
fn decimate_twice_is_decimate_once() {
    let mut mesh = create_mesh(
        vec![
            0.0, 0.0, 0.0, 1.0, 0.0, 0.0, 2.0, 0.0, 0.0, 1.5, 1.0, 0.0, 1.0, 1.0, 0.0,
        ],
        vec![0, 1, 4, 4, 1, 3, 3, 1, 2],
    );
    decimate(&mut mesh);
    let once = (mesh.no_vertices(), mesh.no_faces(), sorted_positions(&mesh));
    assert_eq!(once.0, 4);
    assert_eq!(once.1, 2);
    decimate(&mut mesh);
    let twice = (mesh.no_vertices(), mesh.no_faces(), sorted_positions(&mesh));
    assert_eq!(once, twice);
}

#[test]
fn contour_leaves_no_edge_across_a_plane() {
    let mut mesh = create_mesh(
        vec![
            0.25, 0.0, 0.0, 2.75, 0.5, 0.0, 1.5, 2.0, 0.0, 3.5, 2.5, 1.0,
        ],
        vec![0, 1, 2, 2, 1, 3],
    );
    assert!(some_edge_crosses_a_plane(&mesh, Axis::X, 1.0));
    contour(&mut mesh, Axis::X, 1.0);
    assert!(!some_edge_crosses_a_plane(&mesh, Axis::X, 1.0));
    assert!(mesh.is_valid().is_ok());
    for face in mesh.face_iter() {
        assert!(mesh.face_area(face) > 0.0);
    }
}

#[test]
fn contour_twice_is_contour_once() {
    let mut mesh = create_mesh(
        vec![
            0.25, 0.0, 0.0, 2.75, 0.5, 0.0, 1.5, 2.0, 0.0, 3.5, 2.5, 1.0,
        ],
        vec![0, 1, 2, 2, 1, 3],
    );
    contour(&mut mesh, Axis::X, 1.0);
    let once = (mesh.no_vertices(), mesh.no_faces(), sorted_positions(&mesh));
    contour(&mut mesh, Axis::X, 1.0);
    let twice = (mesh.no_vertices(), mesh.no_faces(), sorted_positions(&mesh));
    assert_eq!(once, twice);
}

#[test]
fn contour_does_not_cut_at_a_vertex_on_a_plane() {
    // every vertex lies on a plane: nothing is cut
    let mut mesh = create_mesh(
        vec![0.0, 0.0, 0.0, 1.0, 0.0, 0.0, 1.0, 1.0, 0.0, 2.0, 0.5, 0.0],
        vec![0, 1, 2, 2, 1, 3],
    );
    let before = (mesh.no_vertices(), mesh.no_faces(), sorted_positions(&mesh));
    contour(&mut mesh, Axis::X, 1.0);
    let after = (mesh.no_vertices(), mesh.no_faces(), sorted_positions(&mesh));
    assert_eq!(before, after);
    for face in mesh.face_iter() {
        assert!(mesh.face_area(face) > 0.0);
    }
}

#[test]
fn collapse_small_edges_merges_near_vertices() {
    let mut mesh = create_mesh(
        vec![
            0.0, 0.0, 0.0, 1.0, 0.0, 0.0, 0.0, 1.0, 0.0, 1.0, 1.0, 0.0, 1.0005, 1.0, 0.0,
        ],
        vec![0, 1, 2, 2, 1, 3, 3, 1, 4],
    );
    let mut ids = Ids::new();
    let edges = mesh
        .edge_iter()
        .map(|e| mesh.edge_vertices(e))
        .collect::<Vec<_>>()
        .into_iter()
        .map(|(v0, v1)| (ids.key(v0), ids.key(v1)))
        .collect::<Vec<_>>();
    let mut pass = CollapsePass::new(edges);
    while let Some((k0, k1)) = pass.next_candidate() {
        if let Some(edge) = mesh.connecting_edge(ids.id(k0), ids.id(k1)) {
            let length = (mesh.edge_sqr_length(edge) * 1e12).round() as i128;
            if is_small_edge(length) {
                let surviving = mesh.collapse_edge(edge);
                pass.collapsed(k0, k1, ids.key(surviving));
            }
        }
    }
    assert_eq!(mesh.no_vertices(), 4);
    assert_eq!(mesh.no_faces(), 2);
}
