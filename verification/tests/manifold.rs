use voxelization::manifold::manifold_from_triangle_soup;

/// A position in lattice steps.
fn vec3(x: f64, y: f64, z: f64) -> (i64, i64, i64) {
    (
        (x * 1e6).round() as i64,
        (y * 1e6).round() as i64,
        (z * 1e6).round() as i64,
    )
}

#[test]
fn test_manifold_triangle() {
    let triangles = vec![[
        vec3(0.0, 0.0, 0.0),
        vec3(1.0, 0.0, 0.0),
        vec3(0.0, 1.0, 0.0),
    ]];
    let mesh = manifold_from_triangle_soup(triangles);

    assert_eq!(mesh.num_vertices(), 3);
    assert_eq!(mesh.num_edges(), 3);
    assert_eq!(mesh.num_faces(), 1);
}

#[test]
fn test_manifold_square() {
    let triangles = vec![
        [
            vec3(0.0, 0.0, 0.0),
            vec3(1.0, 0.0, 0.0),
            vec3(0.0, 1.0, 0.0),
        ],
        [
            vec3(1.0, 1.0, 0.0),
            vec3(0.0, 1.0, 0.0),
            vec3(1.0, 0.0, 0.0),
        ],
    ];
    let mesh = manifold_from_triangle_soup(triangles);

    assert_eq!(mesh.num_vertices(), 4);
    assert_eq!(mesh.num_edges(), 5);
    assert_eq!(mesh.num_faces(), 2);
}

#[test]
fn test_manifold_tetraflap_with_pairs() {
    let triangles = vec![
        [
            vec3(0.0, 0.0, 0.0),
            vec3(2.0, 1.0, 0.0),
            vec3(0.0, 2.0, 0.0),
        ],
        [
            vec3(0.0, 2.0, 0.0),
            vec3(0.0, 1.0, 2.0),
            vec3(0.0, 0.0, 0.0),
        ],
        [
            vec3(0.0, 0.0, 0.0),
            vec3(-2.0, 1.0, 0.0),
            vec3(0.0, 2.0, 0.0),
        ],
        [
            vec3(0.0, 2.0, 0.0),
            vec3(0.0, 1.0, -2.0),
            vec3(0.0, 0.0, 0.0),
        ],
    ];
    let mesh = manifold_from_triangle_soup(triangles);

    assert_eq!(mesh.num_vertices(), 8);
    assert_eq!(mesh.num_edges(), 10);
    assert_eq!(mesh.num_faces(), 4);
}

#[test]
fn test_manifold_tetrahedron() {
    let triangles = vec![
        [
            vec3(0.0, 0.0, 0.0),
            vec3(1.0, 0.0, 1.0),
            vec3(0.0, 1.0, 1.0),
        ],
        [
            vec3(1.0, 1.0, 0.0),
            vec3(0.0, 1.0, 1.0),
            vec3(1.0, 0.0, 1.0),
        ],
        [
            vec3(0.0, 0.0, 0.0),
            vec3(1.0, 1.0, 0.0),
            vec3(1.0, 0.0, 1.0),
        ],
        [
            vec3(1.0, 1.0, 0.0),
            vec3(0.0, 0.0, 0.0),
            vec3(0.0, 1.0, 1.0),
        ],
    ];
    let mesh = manifold_from_triangle_soup(triangles);

    assert_eq!(mesh.num_vertices(), 4);
    assert_eq!(mesh.num_edges(), 6);
    assert_eq!(mesh.num_faces(), 4);
}
