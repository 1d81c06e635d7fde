use petgraph::algo;
use petgraph::data::{Element, FromElements};
use petgraph::graph::Graph;
use voxelization::boundary::BoundaryGraph;
use voxelization::material_mesh::MaterialID;
use voxelization::material_mesh::MaterialMesh;

type Point3 = (i64, i64, i64);

fn lattice(x: f64) -> i64 {
    (x * 1e6).round() as i64
}

fn create_mesh(positions: Vec<f64>, indexes: Vec<u32>) -> MaterialMesh {
    let points = positions
        .chunks(3)
        .map(|p| (lattice(p[0]), lattice(p[1]), lattice(p[2])))
        .collect::<Vec<_>>();
    let tags = vec![MaterialID::default(); indexes.len() / 3];
    MaterialMesh::new(points, indexes, tags).expect("Invalid mesh")
}

fn graph_from_mesh(
    mesh: &MaterialMesh,
    vertices: Vec<usize>,
    edges: Vec<(usize, usize)>,
) -> Graph<Point3, ()> {
    Graph::from_elements(
        vertices
            .into_iter()
            .map(|vertex| Element::Node {
                weight: mesh.vertex_position(vertex),
            })
            .chain(edges.into_iter().map(|(s, t)| Element::Edge {
                source: s,
                target: t,
                weight: (),
            })),
    )
}

fn as_graph(boundary: &BoundaryGraph) -> Graph<Point3, ()> {
    Graph::from_elements(
        boundary
            .nodes
            .iter()
            .map(|node| Element::Node { weight: *node })
            .chain(boundary.edges.iter().map(|(s, t)| Element::Edge {
                source: *s,
                target: *t,
                weight: (),
            })),
    )
}

#[test]
fn test_boundary_graph_triangle() {
    let mesh = create_mesh(
        vec![0.0, 0.0, 0.0, 1.0, 0.0, 0.0, 0.0, 1.0, 0.0],
        vec![0, 1, 2],
    );

    let graph = as_graph(&mesh.boundary_graph());
    let expected = graph_from_mesh(&mesh, vec![0, 1, 2], vec![(0, 1), (2, 0), (1, 2)]);
    assert!(algo::is_isomorphic_matching(
        &graph,
        &expected,
        |x, y| x == y,
        |x, y| x == y
    ));
}

#[test]
fn test_boundary_graph_square() {
    let mesh = create_mesh(
        vec![0.0, 0.0, 0.0, 1.0, 0.0, 0.0, 0.0, 1.0, 0.0, 1.0, 1.0, 0.0],
        vec![0, 1, 2, 3, 2, 1],
    );

    let graph = as_graph(&mesh.boundary_graph());
    let expected = graph_from_mesh(
        &mesh,
        vec![0, 1, 2, 3],
        vec![(0, 1), (1, 3), (3, 2), (2, 0)],
    );
    assert!(algo::is_isomorphic_matching(
        &graph,
        &expected,
        |x, y| x == y,
        |x, y| x == y
    ));
}

#[test]
fn test_boundary_graph_poked_square() {
    let mesh = create_mesh(
        vec![
            0.0, 0.0, 0.0, 1.0, 0.0, 0.0, 0.0, 1.0, 0.0, 1.0, 1.0, 0.0, 0.5, 0.5, 0.0,
        ],
        vec![0, 4, 2, 2, 4, 3, 3, 4, 1, 1, 4, 0],
    );

    let graph = as_graph(&mesh.boundary_graph());
    let expected = graph_from_mesh(
        &mesh,
        vec![0, 1, 2, 3],
        vec![(0, 1), (1, 3), (3, 2), (2, 0)],
    );
    assert!(algo::is_isomorphic_matching(
        &graph,
        &expected,
        |x, y| x == y,
        |x, y| x == y
    ));
}

#[test]
fn test_boundary_graph_no_boundary() {
    let mesh = create_mesh(
        vec![0.0, 0.0, 0.0, 1.0, 0.0, 0.0, 0.0, 1.0, 0.0, 0.0, 0.0, 1.0],
        vec![1, 0, 2, 2, 0, 3, 3, 0, 1, 1, 2, 3],
    );

    let graph = as_graph(&mesh.boundary_graph());
    let expected = graph_from_mesh(&mesh, vec![], vec![]);
    assert!(algo::is_isomorphic_matching(
        &graph,
        &expected,
        |x, y| x == y,
        |x, y| x == y
    ));
}
