use std::collections::HashSet;
use voxelization::material_mesh::MaterialID;
use voxelization::material_mesh::MaterialMesh;

fn lattice(x: f64) -> i64 {
    (x * 1e6).round() as i64
}

fn create_mesh(positions: Vec<f64>, indexes: Vec<u32>) -> MaterialMesh {
    let points = positions
        .chunks(3)
        .map(|p| (lattice(p[0]), lattice(p[1]), lattice(p[2])))
        .collect::<Vec<_>>();
    let tags = vec![MaterialID::default(); indexes.len() / 3];
    MaterialMesh::new(points, indexes, tags).expect("Invalid mesh")
}

#[test]
fn test_intersect_unit_cube_diagonal_plane() {
    let mesh = create_mesh(
        vec![0.0, 1.0, 0.0, 1.0, 0.0, 0.0, 1.0, 0.0, 1.0, 0.0, 1.0, 1.0],
        vec![0, 1, 2, 2, 3, 0],
    );
    let expected_vertices = vec![
        (0.0, 1.0, 0.0),
        (1.0, 0.0, 0.0),
        (1.0, 0.0, 1.0),
        (0.0, 1.0, 1.0),
        (1.0, 1.0, 0.0),
        (1.0, 1.0, 1.0),
    ]
    .into_iter()
    .map(|(x, y, z)| (lattice(x), lattice(y), lattice(z)))
    .collect::<HashSet<_>>();

    let mesh = mesh
        .intersect_unit_cube((0, 0, 0))
        .expect("Bad complex voxel boundary");
    let vertices = (0..mesh.num_vertices())
        .map(|v| mesh.vertex_position(v))
        .collect::<HashSet<_>>();

    // Right triangular prism expected
    assert_eq!(vertices, expected_vertices);
    assert_eq!(mesh.num_edges(), 12);
    assert_eq!(mesh.num_faces(), 8);
}
