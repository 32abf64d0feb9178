use three_d_asset::{vec3, Positions, TriMesh};
use tri_mesh::{FaceID, Mesh};

/// Builds a mesh from an asset: its indices, or every three positions in order when it has none.
fn from_tri_mesh(input: &TriMesh) -> Mesh<f64> {
    let mut positions = Vec::new();
    for p in input.positions.to_f64() {
        positions.push(p.x);
        positions.push(p.y);
        positions.push(p.z);
    }
    let no_vertices = (positions.len() / 3) as u32;
    let indices = input.indices.to_u32().unwrap_or((0..no_vertices).collect());
    Mesh::new(indices, positions)
}

fn face_normal(mesh: &Mesh<f64>, face_id: FaceID) -> [f64; 3] {
    let (a, b, c) = mesh.face_vertices(face_id);
    let (pa, pb, pc) = (mesh.vertex_position(a), mesh.vertex_position(b), mesh.vertex_position(c));
    let u = [pb[0] - pa[0], pb[1] - pa[1], pb[2] - pa[2]];
    let v = [pc[0] - pa[0], pc[1] - pa[1], pc[2] - pa[2]];
    let n = [u[1] * v[2] - u[2] * v[1], u[2] * v[0] - u[0] * v[2], u[0] * v[1] - u[1] * v[0]];
    let l = (n[0] * n[0] + n[1] * n[1] + n[2] * n[2]).sqrt();
    [n[0] / l, n[1] / l, n[2] / l]
}

#[test]
fn test_flip_orientation() {
    let mut mesh = from_tri_mesh(&TriMesh::sphere(4));

    let mut map = std::collections::HashMap::new();
    for face_id in mesh.face_iter() {
        map.insert(face_id, face_normal(&mesh, face_id));
    }
    mesh.flip_orientation();

    mesh.is_valid().unwrap();
    for face_id in mesh.face_iter() {
        let before = map.get(&face_id).unwrap();
        let after = face_normal(&mesh, face_id);
        let d = [after[0] + before[0], after[1] + before[1], after[2] + before[2]];
        assert!((d[0] * d[0] + d[1] * d[1] + d[2] * d[2]).sqrt() < 0.001);
    }
}

#[test]
fn test_new_from_positions() {
    let mesh = from_tri_mesh(&TriMesh {
        positions: Positions::F64(vec![
            vec3(0.0, 0.0, 0.0),
            vec3(1.0, 0.0, 0.0),
            vec3(0.0, 0.0, 1.0),
            vec3(0.0, 1.0, 1.0),
            vec3(1.0, 0.0, 1.0),
            vec3(0.0, 1.0, 0.0),
            vec3(0.0, 0.0, 1.0),
            vec3(1.0, 0.0, 1.0),
            vec3(0.0, 1.0, 1.0),
        ]),
        ..Default::default()
    });

    assert_eq!(9, mesh.no_vertices());
    assert_eq!(3, mesh.no_faces());
    mesh.is_valid().unwrap();
}
