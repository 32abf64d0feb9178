use tri_mesh::{FaceID, Mesh, MeshBuilder, ID};

fn create_connected_test_object() -> Mesh<f64> {
    let positions: Vec<f64> = vec![
        1.0, -1.0, -1.0, 1.0, -1.0, 1.0, -1.0, -1.0, 1.0, -1.0, -1.0, -1.0, 1.0, 1.0, -1.0, 1.0, 1.0, 1.0, -1.0, 1.0,
        1.0, -1.0, 1.0, -1.0,
    ];

    let indices: Vec<u32> = vec![
        0, 1, 2, 0, 2, 3, 4, 7, 6, 4, 6, 5, 0, 4, 5, 0, 5, 1, 1, 5, 6, 1, 6, 2, 2, 6, 7, 2, 7, 3, 4, 0, 3, 4, 3, 7,
    ];
    MeshBuilder::new().with_positions(positions).with_indices(indices).build().unwrap()
}

fn create_unconnected_test_object() -> Mesh<f64> {
    let positions: Vec<f64> = vec![
        1.0, -1.0, -1.0, 1.0, -1.0, 1.0, -1.0, -1.0, 1.0, -1.0, -1.0, -1.0, 1.0, 1.0, -1.0, 1.0, 1.0, 1.0, -1.0, 1.0,
        1.0, -1.0, 1.0, -1.0, -1.0, 2.0, -1.0, -1.0, 3.0, -1.0, -2.0, 4.0, -1.0, -2.0, 1.0, -1.0, -1.0, 3.0, -2.0,
        -2.0, 4.0, -3.0, -2.0, 1.0, -4.0,
    ];

    let indices: Vec<u32> = vec![
        0, 1, 2, 0, 2, 3, 4, 7, 6, 4, 6, 5, 0, 4, 5, 0, 5, 1, 1, 5, 6, 1, 6, 2, 2, 6, 7, 2, 7, 3, 4, 0, 3, 4, 3, 7, 8,
        9, 10, 8, 10, 11, 12, 13, 14,
    ];

    MeshBuilder::new().with_positions(positions).with_indices(indices).build().unwrap()
}

#[test]
fn test_one_connected_component() {
    let mesh = create_connected_test_object();
    let cc = mesh.connected_component(mesh.face_iter()[0]);
    assert_eq!(cc.len(), mesh.no_faces());
}

#[test]
fn test_connected_components() {
    let mesh = create_unconnected_test_object();
    let cc = mesh.connected_components();

    assert_eq!(cc.len(), 3);

    assert_eq!(cc[0].len() + cc[1].len() + cc[2].len(), 15);
    assert!(cc.iter().find(|vec| vec.len() == 12).is_some());
    assert!(cc.iter().find(|vec| vec.len() == 2).is_some());
    assert!(cc.iter().find(|vec| vec.len() == 1).is_some());
}

#[test]
fn components_with_limit_stop_at_cut_edges() {
    let mesh = create_connected_test_object();
    // Cut every half-edge: each face is a component of its own.
    let cut = vec![true; mesh.halfedge_slot_count()];
    let cc = mesh.connected_components_with_limit(&cut);
    assert_eq!(cc.len(), 12);
    for c in cc.iter() {
        assert_eq!(c.len(), 1);
    }
    let one = mesh.connected_component_with_limit(FaceID::new(3), &cut);
    assert_eq!(one, vec![FaceID::new(3)]);
}

#[test]
fn components_start_at_smallest_face() {
    let mesh = create_unconnected_test_object();
    let cc = mesh.connected_components();
    assert_eq!(cc[0][0], FaceID::new(0));
    assert_eq!(cc[1][0], FaceID::new(12));
    assert_eq!(cc[2][0], FaceID::new(14));
    let mut all: Vec<FaceID> = cc.concat();
    all.sort();
    assert_eq!(all, mesh.face_iter());
}

#[test]
fn flip_orientation_twice_restores_cube() {
    let mut mesh = create_connected_test_object();
    let before = mesh.indices_buffer();
    mesh.flip_orientation();
    mesh.is_valid().unwrap();
    assert_ne!(before, mesh.indices_buffer());
    mesh.flip_orientation();
    mesh.is_valid().unwrap();
    let after = mesh.indices_buffer();
    for (a, b) in before.chunks(3).zip(after.chunks(3)) {
        // The same triangle, in the same cyclic order.
        let rotations = [[a[0], a[1], a[2]], [a[1], a[2], a[0]], [a[2], a[0], a[1]]];
        assert!(rotations.iter().any(|r| r[..] == b[..]));
    }
}

#[test]
fn fix_orientation_repairs_one_flipped_face() {
    let indices: Vec<u32> = vec![0, 1, 2, 1, 2, 3];
    let positions: Vec<f64> = vec![0.0, 0.0, 0.0, 0.0, 0.0, 1.0, 1.0, 0.0, 0.5, 1.0, 0.0, 1.5];
    let mut mesh = MeshBuilder::new().with_indices(indices).with_positions(positions).build().unwrap();
    assert!(mesh.is_valid().is_err());
    mesh.fix_orientation();
    mesh.is_valid().unwrap();
    assert_eq!(mesh.no_faces(), 2);
}

#[test]
fn fix_orientation_leaves_valid_mesh_unchanged() {
    let mut mesh = create_connected_test_object();
    mesh.is_valid().unwrap();
    let indices = mesh.indices_buffer();
    let halfedges = mesh.halfedge_iter();
    let ends: Vec<_> = halfedges.iter().map(|h| mesh.walker_from_halfedge(*h).vertex_id()).collect();
    mesh.fix_orientation();
    assert_eq!(indices, mesh.indices_buffer());
    assert_eq!(halfedges, mesh.halfedge_iter());
    let ends_after: Vec<_> = halfedges.iter().map(|h| mesh.walker_from_halfedge(*h).vertex_id()).collect();
    assert_eq!(ends, ends_after);
    mesh.is_valid().unwrap();
}

#[test]
fn every_face_lies_in_exactly_one_component() {
    let mesh = create_unconnected_test_object();
    let cc = mesh.connected_components();
    for f in mesh.face_iter() {
        assert_eq!(cc.iter().filter(|c| c.contains(&f)).count(), 1);
    }
}
