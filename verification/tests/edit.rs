use tri_mesh::{FaceID, HalfEdgeID, Mesh, MeshBuilder, VertexID, ID};

fn square() -> Mesh<f64> {
    MeshBuilder::new()
        .with_indices(vec![0, 1, 2, 2, 1, 3])
        .with_positions(vec![-1.0, -1.0, 0.0, 1.0, -1.0, 0.0, -1.0, 1.0, 0.0, 1.0, 1.0, 0.0])
        .build()
        .unwrap()
}

fn triangle() -> Mesh<f64> {
    MeshBuilder::new()
        .with_positions(vec![-3.0, -1.0, 0.0, 3.0, -1.0, 0.0, 0.0, 2.0, 0.0])
        .build()
        .unwrap()
}

fn subdivided_triangle() -> Mesh<f64> {
    MeshBuilder::new()
        .with_indices(vec![0, 2, 3, 0, 3, 1, 0, 1, 2])
        .with_positions(vec![0.0, 0.0, 0.0, -3.0, -1.0, 0.0, 3.0, -1.0, 0.0, 0.0, 2.0, 0.0])
        .build()
        .unwrap()
}

fn icosahedron() -> Mesh<f64> {
    let x = 0.525731112119133606;
    let z = 0.850650808352039932;
    MeshBuilder::new()
        .with_positions(vec![
            -x, 0.0, z, x, 0.0, z, -x, 0.0, -z, x, 0.0, -z, 0.0, z, x, 0.0, z, -x, 0.0, -z, x, 0.0,
            -z, -x, z, x, 0.0, -z, x, 0.0, z, -x, 0.0, -z, -x, 0.0,
        ])
        .with_indices(vec![
            0, 1, 4, 0, 4, 9, 9, 4, 5, 4, 8, 5, 4, 1, 8, 8, 1, 10, 8, 10, 3, 5, 8, 3, 5, 3, 2, 2,
            3, 7, 7, 3, 10, 7, 10, 6, 7, 6, 11, 11, 6, 0, 0, 6, 1, 6, 10, 1, 9, 11, 0, 9, 2, 11, 9,
            5, 2, 7, 11, 2,
        ])
        .build()
        .unwrap()
}

/// Collapses the edge with the merged vertex at the midpoint of the edge.
fn collapse_at_midpoint(mesh: &mut Mesh<f64>, halfedge_id: HalfEdgeID) -> VertexID {
    let (a, b) = mesh.edge_vertices(halfedge_id);
    let pa = mesh.vertex_position(a);
    let pb = mesh.vertex_position(b);
    let mid = [0.5 * (pa[0] + pb[0]), 0.5 * (pa[1] + pb[1]), 0.5 * (pa[2] + pb[2])];
    mesh.collapse_edge(halfedge_id, mid)
}

#[test]
fn test_flip_edge() {
    let mut no_flips = 0;
    let mut mesh = square();
    let no_edges = mesh.no_halfedges();
    for halfedge_id in mesh.halfedge_iter() {
        let (v0, v1) = mesh.edge_vertices(halfedge_id);

        if mesh.flip_edge(halfedge_id).is_ok() {
            mesh.is_valid().unwrap();

            let (v2, v3) = mesh.edge_vertices(halfedge_id);
            assert_ne!(v0, v2);
            assert_ne!(v1, v2);
            assert_ne!(v0, v3);
            assert_ne!(v1, v3);

            assert!(mesh.connecting_edge(v0, v1).is_none());
            assert!(mesh.connecting_edge(v2, v3).is_some());

            let edge = mesh.connecting_edge(v2, v3).unwrap();
            let twin = mesh.walker_from_halfedge(edge).twin_id().unwrap();
            assert!(
                edge == halfedge_id || twin == halfedge_id,
                "Flipped edge {:?} or flipped edge twin {:?} should be equal to before flipped edge id {:?}",
                edge,
                twin,
                halfedge_id
            );
            no_flips = no_flips + 1;
        }
    }
    assert_eq!(no_edges, mesh.no_halfedges());
    assert_eq!(no_flips, 2);
}

#[test]
fn test_flip_multiple_edges() {
    let mut no_flips = 0;
    let mut mesh = icosahedron();
    let no_edges = mesh.no_halfedges();
    for halfedge_id in mesh.halfedge_iter() {
        let (v0, v1) = mesh.edge_vertices(halfedge_id);

        if mesh.flip_edge(halfedge_id).is_ok() {
            mesh.is_valid().unwrap();

            let (v2, v3) = mesh.edge_vertices(halfedge_id);
            assert_ne!(v0, v2);
            assert_ne!(v1, v2);
            assert_ne!(v0, v3);
            assert_ne!(v1, v3);

            assert!(mesh.connecting_edge(v0, v1).is_none());
            assert!(mesh.connecting_edge(v2, v3).is_some());

            let edge = mesh.connecting_edge(v2, v3).unwrap();
            let twin = mesh.walker_from_halfedge(edge).twin_id().unwrap();
            assert!(
                edge == halfedge_id || twin == halfedge_id,
                "Flipped edge {:?} or flipped edge twin {:?} should be equal to before flipped edge id {:?}",
                edge,
                twin,
                halfedge_id
            );
            no_flips = no_flips + 1;
        }
    }
    assert_eq!(no_edges, mesh.no_halfedges());
    assert!(no_flips > 0);
}

#[test]
fn test_split_edge_on_boundary() {
    let mut mesh = triangle();
    for halfedge_id in mesh.halfedge_iter() {
        if mesh.walker_from_halfedge(halfedge_id).face_id().is_some() {
            mesh.split_edge(halfedge_id, [-1.0, -1.0, -1.0]);

            assert_eq!(mesh.no_vertices(), 4);
            assert_eq!(mesh.no_halfedges(), 2 * 3 + 4);
            assert_eq!(mesh.no_faces(), 2);

            let mut walker = mesh.walker_from_halfedge(halfedge_id);
            assert!(walker.halfedge_id().is_some());
            assert!(walker.face_id().is_some());
            assert!(walker.vertex_id().is_some());

            walker.as_twin();
            assert!(walker.halfedge_id().is_some());
            assert!(walker.face_id().is_none());
            assert!(walker.vertex_id().is_some());

            walker.as_twin().as_next().as_twin();
            assert!(walker.halfedge_id().is_some());
            assert!(walker.face_id().is_some());
            assert!(walker.vertex_id().is_some());

            walker.as_next().as_next().as_twin();
            assert!(walker.halfedge_id().is_some());
            assert!(walker.face_id().is_none());
            assert!(walker.vertex_id().is_some());

            mesh.is_valid().unwrap();

            break;
        }
    }
}

#[test]
fn test_split_edge() {
    let mut mesh = square();
    for halfedge_id in mesh.halfedge_iter() {
        let mut walker = mesh.walker_from_halfedge(halfedge_id);
        if walker.face_id().is_some() && walker.as_twin().face_id().is_some() {
            let vertex_id = mesh.split_edge(halfedge_id, [-1.0, -1.0, -1.0]);
            assert_eq!(mesh.no_vertices(), 5);
            assert_eq!(mesh.no_halfedges(), 4 * 3 + 4);
            assert_eq!(mesh.no_faces(), 4);

            let mut w = mesh.walker_from_vertex(vertex_id);
            let start_halfedge_id = w.halfedge_id();
            let mut end_halfedge_id = w.twin_id();
            for _ in 0..4 {
                assert!(w.halfedge_id().is_some());
                assert!(w.twin_id().is_some());
                assert!(w.vertex_id().is_some());
                assert!(w.face_id().is_some());
                w.as_previous().as_twin();
                end_halfedge_id = w.halfedge_id();
            }
            assert_eq!(start_halfedge_id, end_halfedge_id, "Did not go the full round");

            mesh.is_valid().unwrap();
            break;
        }
    }
}

#[test]
fn test_split_face() {
    let mut mesh = triangle();
    let face_id = mesh.face_iter()[0];

    let vertex_id = mesh.split_face(face_id, [-1.0, -1.0, -1.0]);

    assert_eq!(mesh.no_vertices(), 4);
    assert_eq!(mesh.no_halfedges(), 3 * 3 + 3);
    assert_eq!(mesh.no_faces(), 3);

    let mut walker = mesh.walker_from_vertex(vertex_id);
    let start_edge = walker.halfedge_id().unwrap();
    let one_round_edge = walker
        .as_previous()
        .as_twin()
        .as_previous()
        .as_twin()
        .as_previous()
        .as_twin()
        .halfedge_id()
        .unwrap();
    assert_eq!(start_edge, one_round_edge);

    assert!(walker.face_id().is_some());
    walker.as_next().as_twin();
    assert!(walker.face_id().is_none());

    walker.as_twin().as_next().as_twin().as_next().as_twin();
    assert!(walker.face_id().is_none());

    walker.as_twin().as_next().as_twin().as_next().as_twin();
    assert!(walker.face_id().is_none());

    mesh.is_valid().unwrap();
}

#[test]
fn test_collapse_edge_on_boundary1() {
    let indices: Vec<u32> = vec![0, 1, 2, 1, 3, 2, 2, 3, 4];
    let positions: Vec<f64> = vec![0.0, 0.0, 0.0, 0.0, 0.0, 1.0, 1.0, 0.0, 0.0, 1.0, 0.0, 1.0, 2.0, 0.0, 0.5];
    let mut mesh = Mesh::new(indices, positions);

    for halfedge_id in mesh.halfedge_iter() {
        let mut walker = mesh.walker_from_halfedge(halfedge_id);
        if walker.face_id().is_none()
            && walker.as_twin().as_next().as_twin().face_id().is_some()
            && walker.as_twin().as_next().as_twin().face_id().is_some()
        {
            collapse_at_midpoint(&mut mesh, halfedge_id);

            assert_eq!(mesh.no_vertices(), 4);
            assert_eq!(mesh.no_halfedges(), 10);
            assert_eq!(mesh.no_faces(), 2);

            mesh.is_valid().unwrap();

            break;
        }
    }
}

#[test]
fn test_collapse_edge_on_boundary2() {
    let indices: Vec<u32> = vec![0, 2, 3, 0, 3, 1];
    let positions: Vec<f64> = vec![0.0, 0.0, 0.0, 0.0, 0.0, 1.0, 1.0, 0.0, 0.0, 1.0, 0.0, 1.0];
    let mut mesh = Mesh::new(indices, positions);
    for halfedge_id in mesh.halfedge_iter() {
        if mesh.is_edge_on_boundary(halfedge_id) {
            collapse_at_midpoint(&mut mesh, halfedge_id);

            assert_eq!(mesh.no_vertices(), 3);
            assert_eq!(mesh.no_halfedges(), 6);
            assert_eq!(mesh.no_faces(), 1);

            mesh.is_valid().unwrap();

            break;
        }
    }
}

#[test]
fn test_collapse_edge() {
    let mut mesh = subdivided_triangle();
    for halfedge_id in mesh.halfedge_iter() {
        if !mesh.is_edge_on_boundary(halfedge_id) {
            collapse_at_midpoint(&mut mesh, halfedge_id);
            assert_eq!(mesh.no_vertices(), 3);
            assert_eq!(mesh.no_halfedges(), 6);
            assert_eq!(mesh.no_faces(), 1);

            mesh.is_valid().unwrap();
            break;
        }
    }
}

#[test]
fn test_recursive_collapse_edge() {
    let indices: Vec<u32> = vec![0, 1, 2, 1, 3, 2, 2, 3, 4];
    let positions: Vec<f64> = vec![0.0, 0.0, 0.0, 0.0, 0.0, 1.0, 1.0, 0.0, 0.0, 1.0, 0.0, 1.0, 2.0, 0.0, 0.5];
    let mut mesh = Mesh::new(indices, positions);

    while mesh.no_faces() > 1 {
        for halfedge_id in mesh.halfedge_iter() {
            if mesh.is_edge_on_boundary(halfedge_id) {
                collapse_at_midpoint(&mut mesh, halfedge_id);
                break;
            }
        }
    }
    assert_eq!(mesh.no_vertices(), 3);
    assert_eq!(mesh.no_halfedges(), 6);
    assert_eq!(mesh.no_faces(), 1);
    mesh.is_valid().unwrap();
}

#[test]
fn test_remove_face_when_unconnected() {
    let positions: Vec<f64> = vec![1.0, 0.0, 0.0, 0.0, 0.0, 0.0, 0.0, 0.0, -1.0, 1.0, 0.0, 0.0, 0.0, 0.0, 0.0, 0.0, 0.0, -1.0];
    let mut mesh = Mesh::new((0..6).collect(), positions);

    let faces: Vec<FaceID> = mesh.face_iter();

    mesh.remove_face(faces[0]);

    assert_eq!(3, mesh.no_vertices());
    assert_eq!(6, mesh.no_halfedges());
    assert_eq!(1, mesh.no_faces());
    mesh.is_valid().unwrap();
}

#[test]
fn test_remove_face_when_connected() {
    let mut mesh = square();

    let face_id = mesh.face_iter()[0];

    mesh.remove_face(face_id);

    assert_eq!(3, mesh.no_vertices());
    assert_eq!(6, mesh.no_halfedges());
    assert_eq!(1, mesh.no_faces());
    mesh.is_valid().unwrap();
}

#[test]
fn test_remove_face_when_three_connected_faces() {
    let mut mesh = subdivided_triangle();

    let face_id = mesh.face_iter()[0];

    mesh.remove_face(face_id);

    assert_eq!(4, mesh.no_vertices());
    assert_eq!(10, mesh.no_halfedges());
    assert_eq!(2, mesh.no_faces());
    mesh.is_valid().unwrap();
}

#[test]
fn test_split_vertex() {
    let mut mesh = icosahedron();
    let no_faces = mesh.no_faces();
    let no_halfedges = mesh.no_halfedges();

    let vert = mesh.vertex_iter()[0];
    let mut walker = mesh.walker_from_vertex(vert);
    let start = walker.halfedge_id().unwrap();
    let end = walker.as_next().as_twin().as_next().as_twin().halfedge_id().unwrap();

    mesh.split_vertex(start, end);

    assert_eq!(13, mesh.no_vertices());
    assert_eq!(no_faces, mesh.no_faces());
    assert_eq!(no_halfedges + 4, mesh.no_halfedges());
    mesh.is_valid().unwrap();
}

#[test]
fn cleanup_test_remove_lonely_vertices() {
    let mut mesh = subdivided_triangle();
    let faces = mesh.face_iter();
    let face_id1 = faces[0];
    let face_id2 = faces[1];
    mesh.remove_face_unsafe(face_id1);
    mesh.remove_face_unsafe(face_id2);

    mesh.remove_lonely_primitives();

    assert_eq!(3, mesh.no_vertices());
    assert_eq!(6, mesh.no_halfedges());
    assert_eq!(1, mesh.no_faces());
    mesh.is_valid().unwrap();
}

#[test]
fn quality_test_remove_lonely_vertices() {
    let indices: Vec<u32> = vec![0, 2, 3, 0, 3, 1, 0, 1, 2];
    let positions: Vec<f64> = vec![0.0, 0.0, 0.0, 0.0, 0.0, 1.0, 1.0, 0.0, -0.5, -1.0, 0.0, -0.5];
    let mut mesh = MeshBuilder::new().with_indices(indices).with_positions(positions).build().unwrap();
    let faces = mesh.face_iter();
    let face_id1 = faces[0];
    let face_id2 = faces[1];
    mesh.remove_face_unsafe(face_id1);
    mesh.remove_face_unsafe(face_id2);

    mesh.remove_lonely_primitives();

    assert_eq!(3, mesh.no_vertices());
    assert_eq!(6, mesh.no_halfedges());
    assert_eq!(1, mesh.no_faces());
    mesh.is_valid().unwrap();
}

#[test]
fn test_flip_orientation_of_face() {
    let indices: Vec<u32> = vec![0, 1, 2, 1, 2, 3];
    let positions: Vec<f64> = vec![0.0, 0.0, 0.0, 0.0, 0.0, 1.0, 1.0, 0.0, 0.5, 1.0, 0.0, 1.5];
    let mut mesh = MeshBuilder::new().with_indices(indices).with_positions(positions).build().unwrap();

    mesh.flip_orientation_of_face(mesh.face_iter()[0]);
    mesh.is_valid().unwrap();
}

#[test]
fn split_vertex_keeps_positions_and_adds_one_vertex() {
    let mut mesh = icosahedron();
    let vert = mesh.vertex_iter()[0];
    let mut walker = mesh.walker_from_vertex(vert);
    let start = walker.halfedge_id().unwrap();
    let end = walker.as_next().as_twin().as_next().as_twin().halfedge_id().unwrap();
    let old = mesh.walker_from_halfedge(start).vertex_id().unwrap();
    let created = mesh.split_vertex(start, end);
    assert_ne!(old, created);
    assert_eq!(mesh.vertex_position(old), mesh.vertex_position(created));
    assert_eq!(mesh.walker_from_halfedge(start).vertex_id(), Some(created));
    assert!(mesh.walker_from_halfedge(start).twin_id().is_some());
    assert!(mesh.walker_from_halfedge(start).as_twin().face_id().is_none());
}

#[test]
fn collapse_edge_moves_survivor_to_given_position() {
    let mut mesh = subdivided_triangle();
    let h = mesh
        .halfedge_iter()
        .into_iter()
        .find(|h| !mesh.is_edge_on_boundary(*h))
        .unwrap();
    let survivor = mesh.walker_from_halfedge(h).vertex_id().unwrap();
    let v = mesh.collapse_edge(h, [7.0, 8.0, 9.0]);
    assert_eq!(v, survivor);
    assert_eq!(mesh.vertex_position(v), [7.0, 8.0, 9.0]);
    assert_eq!(mesh.no_vertices(), 3);
}

#[test]
fn split_face_gives_new_vertex_its_position() {
    let mut mesh = triangle();
    let f = mesh.face_iter()[0];
    let v = mesh.split_face(f, [0.5, 0.25, 0.0]);
    assert_eq!(mesh.vertex_position(v), [0.5, 0.25, 0.0]);
    assert_eq!(mesh.vertex_halfedge_iter(v).len(), 3);
}

#[test]
fn flip_edge_on_boundary_is_refused_and_changes_nothing() {
    let mut mesh = triangle();
    let h = mesh.halfedge_iter()[0];
    let before = mesh.indices_buffer();
    assert!(mesh.flip_edge(h).is_err());
    assert_eq!(before, mesh.indices_buffer());
    assert_eq!(mesh.no_halfedges(), 6);
}

#[test]
fn flip_edge_twice_restores_connectivity_of_square() {
    let mut mesh = square();
    let h = mesh
        .halfedge_iter()
        .into_iter()
        .find(|h| !mesh.is_edge_on_boundary(*h))
        .unwrap();
    let (a, b) = mesh.edge_vertices(h);
    mesh.flip_edge(h).unwrap();
    mesh.flip_edge(h).unwrap();
    let (c, d) = mesh.edge_vertices(h);
    assert!((a == c && b == d) || (a == d && b == c));
    mesh.is_valid().unwrap();
}

#[test]
fn split_vertex_of_id_zero_is_new_id() {
    let mut mesh = icosahedron();
    let n = mesh.no_vertices() as u32;
    let vert = mesh.vertex_iter()[0];
    let mut walker = mesh.walker_from_vertex(vert);
    let start = walker.halfedge_id().unwrap();
    let end = walker.as_next().as_twin().as_next().as_twin().halfedge_id().unwrap();
    let created = mesh.split_vertex(start, end);
    assert_eq!(created, VertexID::new(n));
}

#[test]
fn split_vertex_can_leave_old_vertex_on_moved_halfedge() {
    // The half-edge that the split vertex names leaves it between the two cuts, and split_vertex does not
    // move it back to the old vertex.
    let mut mesh = icosahedron();
    let vert = mesh.vertex_iter()[3];
    let mut walker = mesh.walker_from_vertex(vert);
    let start = walker.halfedge_id().unwrap();
    let end = walker.as_next().as_twin().as_next().as_twin().as_next().as_twin().halfedge_id().unwrap();
    let no_halfedges = mesh.no_halfedges();
    mesh.split_vertex(start, end);
    assert_eq!(mesh.no_vertices(), 13);
    assert_eq!(mesh.no_halfedges(), no_halfedges + 4);
    assert!(mesh.is_valid().is_err());
}

#[test]
fn flip_edge_on_boundary_says_so() {
    let mut mesh = triangle();
    let h = mesh.halfedge_iter()[0];
    match mesh.flip_edge(h) {
        Err(tri_mesh::Error::ActionWillResultInInvalidMesh(message)) => {
            assert_eq!(message, "Trying to flip edge on boundary")
        }
        _ => panic!("flipping a boundary edge must fail"),
    }
}

#[test]
fn is_valid_names_the_failing_check() {
    let indices: Vec<u32> = vec![0, 1, 2, 1, 2, 3];
    let positions: Vec<f64> = vec![0.0, 0.0, 0.0, 0.0, 0.0, 1.0, 1.0, 0.0, 0.5, 1.0, 0.0, 1.5];
    let mesh = MeshBuilder::new().with_indices(indices).with_positions(positions).build().unwrap();
    match mesh.is_valid() {
        Err(tri_mesh::Error::MeshIsInvalid(message)) => {
            assert!(message.starts_with("A "));
        }
        _ => panic!("a mesh with a face turned the other way is not valid"),
    }
}

#[test]
fn new_pairs_shared_edges_and_adds_one_boundary_twin_per_lone_half_edge() {
    let mesh = square();
    assert_eq!(mesh.no_halfedges(), 10);
    for h in mesh.halfedge_iter() {
        let t = mesh.walker_from_halfedge(h).twin_id().unwrap();
        assert_eq!(mesh.walker_from_halfedge(t).twin_id(), Some(h));
    }
    let boundary = mesh.halfedge_iter().into_iter().filter(|h| mesh.walker_from_halfedge(*h).face_id().is_none()).count();
    assert_eq!(boundary, 4);
}

#[test]
fn built_and_edited_meshes_have_valid_connectivity() {
    let mut mesh: Mesh<f64> = Mesh::new(vec![0, 1, 2], vec![0.0, 0.0, 0.0, 1.0, 0.0, 0.0, 0.0, 1.0, 0.0]);
    assert!(mesh.has_valid_connectivity());
    let face_id = mesh.face_iter()[0];
    mesh.split_face(face_id, [0.2, 0.2, 0.0]);
    assert!(mesh.has_valid_connectivity());
    assert!(mesh.is_valid().is_ok());
}

#[test]
fn edge_of_two_faces_on_the_same_three_vertices_cannot_be_collapsed() {
    let pillow: Mesh<f64> = Mesh::new(vec![0, 1, 2, 0, 2, 1], vec![0.0, 0.0, 0.0, 1.0, 0.0, 0.0, 0.0, 1.0, 0.0]);
    for h in pillow.halfedge_iter() {
        assert!(!pillow.can_collapse_edge(h));
    }
    let triangle: Mesh<f64> = Mesh::new(vec![0, 1, 2], vec![0.0, 0.0, 0.0, 1.0, 0.0, 0.0, 0.0, 1.0, 0.0]);
    for h in triangle.halfedge_iter() {
        assert!(triangle.can_collapse_edge(h));
    }
}
