use tri_mesh::{FaceID, HalfEdgeID, Mesh, MeshBuilder, VertexID, ID};

fn triangle() -> Mesh<f64> {
    MeshBuilder::new()
        .with_positions(vec![-3.0, -1.0, 0.0, 3.0, -1.0, 0.0, 0.0, 2.0, 0.0])
        .build()
        .unwrap()
}

fn subdivided_triangle() -> Mesh<f64> {
    MeshBuilder::new()
        .with_indices(vec![0, 2, 3, 0, 3, 1, 0, 1, 2])
        .with_positions(vec![0.0, 0.0, 0.0, -3.0, -1.0, 0.0, 3.0, -1.0, 0.0, 0.0, 2.0, 0.0])
        .build()
        .unwrap()
}

#[test]
fn test_vertex_iterator() {
    let mesh = subdivided_triangle();

    let mut i = 0;
    for _ in mesh.vertex_iter() {
        i = i + 1;
    }
    assert_eq!(4, i);

    // Test that two iterations return the same result
    let vec: Vec<VertexID> = mesh.vertex_iter();
    i = 0;
    for vertex_id in mesh.vertex_iter() {
        assert_eq!(vertex_id, vec[i]);
        i = i + 1;
    }
}

#[test]
fn test_halfedge_iterator() {
    let mesh = subdivided_triangle();

    let mut i = 0;
    for _ in mesh.halfedge_iter() {
        i = i + 1;
    }
    assert_eq!(12, i);

    // Test that two iterations return the same result
    let vec: Vec<HalfEdgeID> = mesh.halfedge_iter();
    i = 0;
    for halfedge_id in mesh.halfedge_iter() {
        assert_eq!(halfedge_id, vec[i]);
        i = i + 1;
    }
}

#[test]
fn test_edge_iterator() {
    let mesh = subdivided_triangle();

    let mut i = 0;
    for _ in mesh.edge_iter() {
        i = i + 1;
    }
    assert_eq!(6, i);

    // Test that two iterations return the same result
    let vec: Vec<HalfEdgeID> = mesh.edge_iter();
    i = 0;
    for halfedge_id in mesh.edge_iter() {
        assert_eq!(halfedge_id, vec[i]);
        i = i + 1;
    }

    // Test that the twin is not returned
    for halfedge_id in mesh.edge_iter() {
        let twin_id = mesh.walker_from_halfedge(halfedge_id).twin_id().unwrap();
        assert!(halfedge_id < twin_id);
        assert!(vec.iter().find(|edge_id| *edge_id == &twin_id).is_none());
    }
}

#[test]
fn test_face_iterator() {
    let mesh = subdivided_triangle();

    let mut i = 0;
    for _ in mesh.face_iter() {
        i = i + 1;
    }
    assert_eq!(3, i);

    // Test that two iterations return the same result
    let vec: Vec<FaceID> = mesh.face_iter();
    i = 0;
    for face_id in mesh.face_iter() {
        assert_eq!(face_id, vec[i]);
        i = i + 1;
    }
}

#[test]
fn test_vertex_halfedge_iterator() {
    let mesh = subdivided_triangle();

    let mut i = 0;
    let vertex_id = *mesh.vertex_iter().last().unwrap();
    for halfedge_id in mesh.vertex_halfedge_iter(vertex_id) {
        assert!(mesh.walker_from_halfedge(halfedge_id).vertex_id().is_some());
        i = i + 1;
    }
    assert_eq!(i, 3, "All edges of a one-ring are not visited");
}

#[test]
fn test_vertex_halfedge_iterator_with_holes() {
    let indices: Vec<u32> = vec![0, 2, 3, 0, 4, 1, 0, 1, 2];
    let positions: Vec<f32> = vec![0.0; 5 * 3];
    let mesh = Mesh::new(indices, positions);

    let mut i = 0;
    for halfedge_id in mesh.vertex_halfedge_iter(VertexID::new(0)) {
        assert!(mesh.walker_from_halfedge(halfedge_id).vertex_id().is_some());
        i = i + 1;
    }
    assert_eq!(i, 4, "All edges of a one-ring are not visited");
}

#[test]
fn test_face_halfedge_iterator() {
    let mesh = triangle();
    let mut i = 0;
    for halfedge_id in mesh.face_halfedge_iter(FaceID::new(0)) {
        let walker = mesh.walker_from_halfedge(halfedge_id);
        assert!(walker.halfedge_id().is_some());
        assert!(walker.face_id().is_some());
        i = i + 1;
    }
    assert_eq!(i, 3, "All edges of a face are not visited");
}

#[test]
fn iterators_list_ids_in_increasing_order() {
    let mesh = subdivided_triangle();
    let v = mesh.vertex_iter();
    assert_eq!(v, vec![VertexID::new(0), VertexID::new(1), VertexID::new(2), VertexID::new(3)]);
    let f = mesh.face_iter();
    assert_eq!(f, vec![FaceID::new(0), FaceID::new(1), FaceID::new(2)]);
    let h = mesh.halfedge_iter();
    for w in h.windows(2) {
        assert!(w[0] < w[1]);
    }
}

#[test]
fn indices_buffer_of_subdivided_triangle() {
    let mesh = subdivided_triangle();
    let indices = mesh.indices_buffer();
    assert_eq!(indices.len(), 9);
    // Each face lists its vertices in the order of the face, starting after the face's half-edge.
    let vs = mesh.vertex_iter();
    let faces = mesh.face_iter();
    for (i, f) in faces.iter().enumerate() {
        let ring = mesh.face_halfedge_iter(*f);
        for j in 0..3 {
            let v = mesh.walker_from_halfedge(ring[j]).vertex_id().unwrap();
            assert_eq!(vs[indices[3 * i + j] as usize], v);
        }
    }
    let mut sorted: Vec<Vec<u32>> = indices.chunks(3).map(|c| {
        let mut c = c.to_vec();
        c.sort();
        c
    }).collect();
    sorted.sort();
    assert_eq!(sorted, vec![vec![0, 1, 2], vec![0, 1, 3], vec![0, 2, 3]]);
}

#[test]
fn one_ring_of_boundary_vertex_of_triangle() {
    let mesh = triangle();
    for v in mesh.vertex_iter() {
        let ring = mesh.vertex_halfedge_iter(v);
        assert_eq!(ring.len(), 2);
        for h in ring {
            let start = mesh.walker_from_halfedge(h).as_twin().vertex_id();
            assert_eq!(start, Some(v));
        }
    }
}

#[test]
fn edge_iterator_lists_one_half_edge_of_each_edge() {
    let mesh = subdivided_triangle();
    let edges = mesh.edge_iter();
    assert_eq!(edges.len(), 6);
    assert_eq!(2 * edges.len(), mesh.no_halfedges());
    for h in mesh.halfedge_iter() {
        let twin = mesh.walker_from_halfedge(h).twin_id().unwrap();
        assert!(edges.contains(&h) != edges.contains(&twin));
    }
}

#[test]
fn connecting_edge_is_found_both_ways() {
    let mesh = subdivided_triangle();
    for a in mesh.vertex_iter() {
        for b in mesh.vertex_iter() {
            assert_eq!(mesh.connecting_edge(a, b).is_some(), mesh.connecting_edge(b, a).is_some());
        }
    }
}
