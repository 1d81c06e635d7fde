use petgraph::algo;
use petgraph::data::{Element, FromElements};
use petgraph::graph::Graph;
use voxelization::material_mesh::MaterialID;
use voxelization::material_mesh::MaterialMesh;

fn lattice(x: f64) -> i64 {
    (x * 1e6).round() as i64
}

fn vec2(x: f64, y: f64) -> (i64, i64) {
    (lattice(x), lattice(y))
}

fn create_graph(vertices: Vec<(i64, i64)>, edges: Vec<(usize, usize)>) -> Graph<(i64, i64), ()> {
    Graph::from_elements(
        vertices
            .into_iter()
            .map(|vertex| Element::Node { weight: vertex })
            .chain(edges.into_iter().map(|(s, t)| Element::Edge {
                source: s,
                target: t,
                weight: (),
            })),
    )
}

fn create_mesh(positions: Vec<f64>, indexes: Vec<u32>) -> MaterialMesh {
    let points = positions
        .chunks(3)
        .map(|p| (lattice(p[0]), lattice(p[1]), lattice(p[2])))
        .collect::<Vec<_>>();
    let tags = vec![MaterialID::default(); indexes.len() / 3];
    MaterialMesh::new(points, indexes, tags).expect("Invalid mesh")
}

#[test]
fn test_boundary_square_context_tet_outside() {
    let mesh = create_mesh(
        vec![
            -0.25, -0.25, -0.75, 0.25, 0.25, -0.75, 0.25, -0.25, -0.25, -0.25, 0.25, -0.25,
        ],
        vec![0, 1, 2, 2, 3, 0, 1, 0, 3, 3, 2, 1],
    );
    let mut graph = Graph::new();
    let expected = graph.clone();

    mesh.intersect_center_unit_square_with_context(&mut graph);
    assert!(algo::is_isomorphic_matching(
        &graph,
        &expected,
        |x, y| x == y,
        |x, y| x == y
    ));
}

#[test]
fn test_boundary_square_context_tet_inside() {
    let mesh = create_mesh(
        vec![
            -0.25, -0.25, -0.75, 0.25, 0.25, -0.75, 0.25, -0.25, -0.25, -0.25, 0.25, -0.25,
        ],
        vec![0, 2, 1, 2, 0, 3, 1, 3, 0, 3, 1, 2],
    );
    let mut graph = Graph::new();
    let expected = create_graph(
        vec![
            vec2(-0.5, -0.5),
            vec2(0.5, -0.5),
            vec2(0.5, 0.5),
            vec2(-0.5, 0.5),
        ],
        vec![(0, 3), (3, 2), (2, 1), (1, 0)],
    );

    mesh.intersect_center_unit_square_with_context(&mut graph);
    assert!(algo::is_isomorphic_matching(
        &graph,
        &expected,
        |x, y| x == y,
        |x, y| x == y
    ));
}
