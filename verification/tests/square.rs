use petgraph::algo;
use petgraph::data::{Element, FromElements};
use petgraph::graph::Graph;
use voxelization::square::combine_equal_vertices;
use voxelization::square::intersect_center_unit_square_on_graph;

/// A position of the unit square in lattice steps.
fn vec2(x: f64, y: f64) -> (i64, i64) {
    ((x * 1e6).round() as i64, (y * 1e6).round() as i64)
}

fn create_graph(vertices: Vec<(i64, i64)>, edges: Vec<(usize, usize)>) -> Graph<(i64, i64), ()> {
    Graph::from_elements(
        vertices
            .into_iter()
            .map(|vertex| Element::Node { weight: vertex })
            .chain(edges.into_iter().map(|(s, t)| Element::Edge {
                source: s,
                target: t,
                weight: (),
            })),
    )
}

#[test]
fn test_combine_equal_vertices_none() {
    let graph = create_graph(
        vec![
            vec2(0.0, 0.0),
            vec2(0.5, 0.0),
            vec2(1.0, 0.0),
            vec2(1.5, 0.0),
        ],
        vec![(0, 1), (2, 3), (3, 2)],
    );

    let expected = graph.clone();
    let result = combine_equal_vertices(&graph);

    assert!(algo::is_isomorphic_matching(
        &result,
        &expected,
        |x, y| x == y,
        |x, y| x == y
    ));
}

#[test]
fn test_combine_equal_vertices_one() {
    let graph = create_graph(
        vec![
            vec2(0.0, 0.0),
            vec2(0.5, 0.0),
            vec2(0.5, 0.0),
            vec2(1.0, 0.0),
        ],
        vec![(0, 1), (1, 2), (2, 3), (3, 2)],
    );

    let expected = create_graph(
        vec![vec2(0.0, 0.0), vec2(0.5, 0.0), vec2(1.0, 0.0)],
        vec![(0, 1), (1, 2), (2, 1)],
    );
    let result = combine_equal_vertices(&graph);

    assert!(algo::is_isomorphic_matching(
        &result,
        &expected,
        |x, y| x == y,
        |x, y| x == y
    ));
}

#[test]
fn test_combine_equal_vertices_edge_collapse() {
    let graph = create_graph(
        vec![
            vec2(0.0, 0.0),
            vec2(0.5, 0.0),
            vec2(0.5, 0.0),
            vec2(0.0, 0.0),
        ],
        vec![(0, 1), (3, 2)],
    );

    let expected = create_graph(vec![vec2(0.0, 0.0), vec2(0.5, 0.0)], vec![(0, 1)]);
    let result = combine_equal_vertices(&graph);

    assert!(algo::is_isomorphic_matching(
        &result,
        &expected,
        |x, y| x == y,
        |x, y| x == y
    ));
}

#[test]
fn test_boundary_square_intersect_edge_across() {
    let mut graph = create_graph(vec![vec2(-0.5, -0.25), vec2(0.5, -0.25)], vec![(0, 1)]);
    let expected = create_graph(
        vec![
            vec2(-0.5, -0.5),
            vec2(0.5, -0.5),
            vec2(-0.5, -0.25),
            vec2(0.5, -0.25),
        ],
        vec![(3, 1), (1, 0), (0, 2), (2, 3)],
    );

    intersect_center_unit_square_on_graph(&mut graph);
    assert!(algo::is_isomorphic_matching(
        &graph,
        &expected,
        |x, y| x == y,
        |x, y| x == y
    ));
}

#[test]
fn test_boundary_square_intersect_multiple_edges() {
    let mut graph = create_graph(
        vec![
            vec2(-0.5, -0.25),
            vec2(-0.25, -0.5),
            vec2(0.25, -0.5),
            vec2(0.5, -0.25),
            vec2(0.5, 0.25),
            vec2(0.25, 0.5),
            vec2(-0.25, 0.5),
            vec2(-0.5, 0.25),
            vec2(0.0, -0.5),
            vec2(0.0, 0.5),
        ],
        vec![(0, 1), (3, 2), (5, 4), (6, 7), (8, 9)],
    );
    let expected = create_graph(
        vec![
            vec2(-0.5, -0.25),
            vec2(-0.25, -0.5),
            vec2(0.25, -0.5),
            vec2(0.5, -0.25),
            vec2(0.5, 0.25),
            vec2(0.25, 0.5),
            vec2(-0.25, 0.5),
            vec2(-0.5, 0.25),
            vec2(0.0, -0.5),
            vec2(0.0, 0.5),
            vec2(-0.5, -0.5),
            vec2(-0.5, 0.5),
        ],
        vec![
            (0, 1),
            (1, 10),
            (10, 0),
            (6, 7),
            (7, 11),
            (11, 6),
            (8, 9),
            (9, 5),
            (5, 4),
            (4, 3),
            (3, 2),
            (2, 8),
        ],
    );

    intersect_center_unit_square_on_graph(&mut graph);
    assert!(algo::is_isomorphic_matching(
        &graph,
        &expected,
        |x, y| x == y,
        |x, y| x == y
    ));
}

#[test]
fn test_boundary_square_intersect_corner() {
    // Boundary hits a corner.
    let mut graph = create_graph(vec![vec2(-0.5, -0.5), vec2(0.5, 0.5)], vec![(0, 1)]);
    let expected = create_graph(
        vec![vec2(-0.5, -0.5), vec2(0.5, 0.5), vec2(0.5, -0.5)],
        vec![(0, 1), (1, 2), (2, 0)],
    );

    intersect_center_unit_square_on_graph(&mut graph);
    assert!(algo::is_isomorphic_matching(
        &graph,
        &expected,
        |x, y| x == y,
        |x, y| x == y
    ));
}

#[test]
fn test_boundary_square_intersect_degree_2_inner() {
    // Boundary has a degree-2 vertex on square boundary. No outer square.
    let mut graph = create_graph(
        vec![
            vec2(-0.5, 0.0),
            vec2(0.0, -0.5),
            vec2(0.5, 0.0),
            vec2(0.0, 0.5),
        ],
        vec![(0, 3), (3, 2), (2, 1), (1, 0)],
    );
    let expected = graph.clone();

    intersect_center_unit_square_on_graph(&mut graph);
    assert!(algo::is_isomorphic_matching(
        &graph,
        &expected,
        |x, y| x == y,
        |x, y| x == y
    ));
}

#[test]
fn test_boundary_square_intersect_degree_2_outer() {
    // Boundary has a degree-2 vertex on square boundary. Yes outer square.
    let mut graph = create_graph(
        vec![
            vec2(-0.5, 0.0),
            vec2(0.0, -0.5),
            vec2(0.5, 0.0),
            vec2(0.0, 0.5),
        ],
        vec![(0, 1), (1, 2), (2, 3), (3, 0)],
    );
    let expected = create_graph(
        vec![
            vec2(-0.5, 0.0),
            vec2(0.0, -0.5),
            vec2(0.5, 0.0),
            vec2(0.0, 0.5),
            vec2(-0.5, -0.5),
            vec2(0.5, -0.5),
            vec2(0.5, 0.5),
            vec2(-0.5, 0.5),
        ],
        vec![
            (0, 1),
            (1, 4),
            (4, 0),
            (1, 2),
            (2, 5),
            (5, 1),
            (2, 3),
            (3, 6),
            (6, 2),
            (3, 0),
            (0, 7),
            (7, 3),
        ],
    );

    intersect_center_unit_square_on_graph(&mut graph);
    assert!(algo::is_isomorphic_matching(
        &graph,
        &expected,
        |x, y| x == y,
        |x, y| x == y
    ));
}

#[test]
fn test_boundary_square_intersect_degree_3() {
    // Boundary has a degree-3 vertex on square boundary.
    let mut graph = create_graph(
        vec![
            vec2(-0.5, 0.0),
            vec2(0.5, -0.5),
            vec2(0.5, 0.0),
            vec2(0.5, 0.5),
        ],
        vec![(0, 1), (2, 0), (0, 3)],
    );
    let expected = create_graph(
        vec![
            vec2(-0.5, 0.0),
            vec2(0.5, -0.5),
            vec2(0.5, 0.0),
            vec2(0.5, 0.5),
            vec2(-0.5, -0.5),
        ],
        vec![(0, 1), (1, 4), (4, 0), (0, 3), (3, 2), (2, 0)],
    );

    intersect_center_unit_square_on_graph(&mut graph);
    assert!(algo::is_isomorphic_matching(
        &graph,
        &expected,
        |x, y| x == y,
        |x, y| x == y
    ));
}

#[test]
fn test_boundary_square_intersect_boundary_clockwise() {
    // Boundary is only on square boundary. Edges go clockwise.
    let mut graph = create_graph(
        vec![vec2(-0.5, 0.5), vec2(0.0, 0.5), vec2(0.5, 0.5)],
        vec![(0, 1), (1, 2)],
    );
    let expected = create_graph(
        vec![
            vec2(-0.5, 0.5),
            vec2(0.0, 0.5),
            vec2(0.5, 0.5),
            vec2(0.5, -0.5),
            vec2(-0.5, -0.5),
        ],
        vec![(0, 1), (1, 2), (2, 3), (3, 4), (4, 0)],
    );

    intersect_center_unit_square_on_graph(&mut graph);
    assert!(algo::is_isomorphic_matching(
        &graph,
        &expected,
        |x, y| x == y,
        |x, y| x == y
    ));
}

#[test]
fn test_boundary_square_intersect_boundary_counterclockwise() {
    // Boundary is only on square boundary. Edges go counterclockwise.
    let mut graph = create_graph(
        vec![vec2(-0.5, 0.5), vec2(0.0, 0.5), vec2(0.5, 0.5)],
        vec![(2, 1), (1, 0)],
    );
    let expected = create_graph(vec![], vec![]);

    intersect_center_unit_square_on_graph(&mut graph);
    assert!(algo::is_isomorphic_matching(
        &graph,
        &expected,
        |x, y| x == y,
        |x, y| x == y
    ));
}

#[test]
fn test_boundary_square_intersect_hole_clockwise() {
    // Boundary is completely inside square. Hole goes clockwise.
    let mut graph = create_graph(
        vec![vec2(-0.25, -0.25), vec2(-0.25, 0.25), vec2(0.25, 0.25)],
        vec![(0, 1), (1, 2), (2, 0)],
    );
    let expected = graph.clone();

    intersect_center_unit_square_on_graph(&mut graph);
    assert!(algo::is_isomorphic_matching(
        &graph,
        &expected,
        |x, y| x == y,
        |x, y| x == y
    ));
}

#[test]
fn test_boundary_square_intersect_hole_counterclockwise() {
    // Boundary is completely inside square. Hole goes counterclockwise.
    let mut graph = create_graph(
        vec![vec2(-0.25, -0.25), vec2(-0.25, 0.25), vec2(0.25, 0.25)],
        vec![(0, 2), (2, 1), (1, 0)],
    );
    let expected = create_graph(
        vec![
            vec2(-0.25, -0.25),
            vec2(-0.25, 0.25),
            vec2(0.25, 0.25),
            vec2(-0.5, -0.5),
            vec2(0.5, -0.5),
            vec2(0.5, 0.5),
            vec2(-0.5, 0.5),
        ],
        vec![(0, 2), (2, 1), (1, 0), (3, 6), (6, 5), (5, 4), (4, 3)],
    );

    intersect_center_unit_square_on_graph(&mut graph);
    assert!(algo::is_isomorphic_matching(
        &graph,
        &expected,
        |x, y| x == y,
        |x, y| x == y
    ));
}

#[test]
fn test_boundary_square_intersect_nothing() {
    let mut graph = create_graph(vec![], vec![]);
    let expected = graph.clone();

    assert!(!intersect_center_unit_square_on_graph(&mut graph));
    assert!(algo::is_isomorphic_matching(
        &graph,
        &expected,
        |x, y| x == y,
        |x, y| x == y
    ));
}
