use tri_mesh::{HalfEdgeID, Mesh, VertexID, ID};

fn merge_first_two_at_origin(positions: Vec<f64>) -> Mesh<f64> {
    let mut mesh = Mesh::new((0..6).collect(), positions);
    let mut vertex_id1: Option<VertexID> = None;
    for vertex_id in mesh.vertex_iter() {
        if mesh.vertex_position(vertex_id) == [0.0, 0.0, 0.0] {
            if vertex_id1.is_none() {
                vertex_id1 = Some(vertex_id);
            } else {
                assert_eq!(mesh.merge_vertices(vertex_id1.unwrap(), vertex_id).unwrap(), vertex_id1.unwrap());
                break;
            }
        }
    }
    mesh
}

fn merge_edges_in_plane(positions: Vec<f64>) -> Mesh<f64> {
    let mut mesh = Mesh::new((0..6).collect(), positions);
    let mut heid1: Option<(HalfEdgeID, VertexID, VertexID)> = None;
    for halfedge_id in mesh.edge_iter() {
        let (v0, v1) = mesh.edge_vertices(halfedge_id);
        if mesh.vertex_position(v0)[2] == 0.0 && mesh.vertex_position(v1)[2] == 0.0 {
            let halfedge_id = mesh.connecting_edge(v0, v1).unwrap();
            if heid1.is_none() {
                heid1 = Some((halfedge_id, v0, v1));
            } else {
                let (halfedge_id1, v10, v11) = heid1.unwrap();
                mesh.merge_vertices(v0, v11).unwrap();
                mesh.merge_vertices(v1, v10).unwrap();
                mesh.merge_halfedges(halfedge_id1, halfedge_id).unwrap();
                break;
            }
        }
    }
    mesh
}

#[test]
fn cleanup_test_merge_vertices() {
    let positions: Vec<f64> = vec![
        0.0, 0.0, 0.0, 1.0, 0.0, -0.5, -1.0, 0.0, -0.5, 0.0, 0.0, 0.0, -1.0, 0.0, -0.5, 0.0, 0.0, 1.0,
    ];
    let mesh = merge_first_two_at_origin(positions);

    assert_eq!(5, mesh.no_vertices());
    assert_eq!(12, mesh.no_halfedges());
    assert_eq!(2, mesh.no_faces());
}

#[test]
fn merging_and_splitting_test_merge_vertices() {
    let positions: Vec<f64> = vec![
        0.0, 0.0, 0.0, 1.0, 0.0, -0.5, -1.0, 0.0, -0.5, 0.0, 0.0, 0.0, -1.0, 0.0, -0.5, 0.0, 0.0, 1.0,
    ];
    let mesh = merge_first_two_at_origin(positions);

    assert_eq!(5, mesh.no_vertices());
    assert_eq!(12, mesh.no_halfedges());
    assert_eq!(2, mesh.no_faces());
}

#[test]
fn cleanup_test_merge_halfedges() {
    let positions: Vec<f64> = vec![
        1.0, 0.0, 0.0, 0.0, 0.0, 0.0, 0.0, 0.0, -1.0, 0.0, 0.0, 0.0, 1.0, 0.0, 0.0, 0.0, 0.0, 1.0,
    ];
    let mesh = merge_edges_in_plane(positions);

    assert_eq!(4, mesh.no_vertices());
    assert_eq!(10, mesh.no_halfedges());
    assert_eq!(2, mesh.no_faces());
}

#[test]
fn merging_and_splitting_test_merge_halfedges() {
    let positions: Vec<f64> = vec![
        1.0, 0.0, 0.0, 0.0, 0.0, 0.0, 0.0, 0.0, -1.0, 0.0, 0.0, 0.0, 1.0, 0.0, 0.0, 0.0, 0.0, 1.0,
    ];
    let mesh = merge_edges_in_plane(positions);

    assert_eq!(4, mesh.no_vertices());
    assert_eq!(10, mesh.no_halfedges());
    assert_eq!(2, mesh.no_faces());
    assert!(mesh.is_valid().is_ok());
}

#[test]
fn merge_vertices_keeps_faces_and_edges() {
    let positions: Vec<f64> = vec![
        0.0, 0.0, 0.0, 1.0, 0.0, 0.0, 0.0, 1.0, 0.0, 0.0, 0.0, 0.0, 0.0, -1.0, 0.0, 1.0, 0.0, 0.0,
    ];
    let mut mesh = Mesh::new((0..6).collect(), positions);
    let ids = mesh.vertex_iter();
    let (a, b) = (ids[0], ids[3]);
    assert_eq!(mesh.merge_vertices(a, b).unwrap(), a);
    assert!(!mesh.vertex_iter().contains(&b));
    assert_eq!(5, mesh.no_vertices());
    assert_eq!(12, mesh.no_halfedges());
    assert_eq!(2, mesh.no_faces());
    for h in mesh.halfedge_iter() {
        let (v0, v1) = mesh.edge_vertices(h);
        assert!(v0 != b && v1 != b);
    }
}

#[test]
fn merge_halfedges_refuses_non_manifold_edge() {
    // Two faces share the edge (1, 2); a third face has its own copy of that edge.
    let positions: Vec<f64> = vec![
        0.0, 0.0, 0.0, 1.0, 0.0, 0.0, 0.0, 1.0, 0.0, 1.0, 1.0, 0.0, 1.0, 0.0, 0.0, 0.0, 1.0, 0.0, 1.0, 1.0, 1.0,
    ];
    let mut mesh = Mesh::new(vec![0, 1, 2, 2, 1, 3, 5, 4, 6], positions);
    let shared = mesh.connecting_edge(VertexID::new(1), VertexID::new(2)).unwrap();
    let other = mesh.connecting_edge(VertexID::new(4), VertexID::new(5)).unwrap();
    let before = mesh.no_halfedges();
    match mesh.merge_halfedges(shared, other) {
        Err(tri_mesh::Error::ActionWillResultInNonManifoldMesh(message)) => assert_eq!(
            message,
            format!("Merging halfedges {} and {} will create a non-manifold mesh", shared.get(), other.get())
        ),
        _ => panic!("merging an interior edge with another edge must fail"),
    }
    assert_eq!(before, mesh.no_halfedges());
}

/// Groups the vertices at the same position, each group listing the later vertices first and the first one last.
fn overlapping_vertices(mesh: &Mesh<f64>) -> Vec<Vec<VertexID>> {
    let mut to_check: Vec<VertexID> = mesh.vertex_iter();
    let mut groups = Vec::new();
    while !to_check.is_empty() {
        let id1 = to_check.remove(0);
        let p1 = mesh.vertex_position(id1);
        let mut to_merge: Vec<VertexID> = to_check
            .iter()
            .copied()
            .filter(|id2| {
                let p2 = mesh.vertex_position(*id2);
                let d = [p1[0] - p2[0], p1[1] - p2[1], p1[2] - p2[2]];
                (d[0] * d[0] + d[1] * d[1] + d[2] * d[2]).sqrt() < 0.00001
            })
            .collect();
        if !to_merge.is_empty() {
            to_check.retain(|id| !to_merge.contains(id));
            to_merge.push(id1);
            groups.push(to_merge);
        }
    }
    groups
}

fn merge_overlapping(mesh: &mut Mesh<f64>) {
    let groups = overlapping_vertices(mesh);
    mesh.merge_overlapping_primitives(&groups).unwrap();
}

fn three_faces_meeting_at_origin() -> Mesh<f64> {
    let positions: Vec<f64> = vec![
        0.0, 0.0, 0.0, 1.0, 0.0, -0.5, -1.0, 0.0, -0.5, 0.0, 0.0, 0.0, -1.0, 0.0, -0.5, 0.0, 0.0, 1.0, 0.0, 0.0,
        0.0, 0.0, 0.0, 1.0, 1.0, 0.0, -0.5,
    ];
    Mesh::new((0..9).collect(), positions)
}

fn unconnected_cube() -> Mesh<f64> {
    let cube = three_d_asset::TriMesh::cube();
    let mut positions = Vec::new();
    for p in cube.positions.to_f64() {
        positions.push(p.x);
        positions.push(p.y);
        positions.push(p.z);
    }
    let no_vertices = (positions.len() / 3) as u32;
    Mesh::new((0..no_vertices).collect(), positions)
}

#[test]
fn cleanup_test_merge_overlapping_primitives() {
    let mut mesh = three_faces_meeting_at_origin();
    merge_overlapping(&mut mesh);

    assert_eq!(4, mesh.no_vertices());
    assert_eq!(12, mesh.no_halfedges());
    assert_eq!(3, mesh.no_faces());
    mesh.is_valid().unwrap();
}

#[test]
fn merging_and_splitting_test_merge_overlapping_primitives() {
    let mut mesh = three_faces_meeting_at_origin();
    merge_overlapping(&mut mesh);

    assert_eq!(4, mesh.no_vertices());
    assert_eq!(12, mesh.no_halfedges());
    assert_eq!(3, mesh.no_faces());
    mesh.is_valid().unwrap();
}

#[test]
fn cleanup_test_merge_overlapping_primitives_of_cube() {
    let mut mesh = unconnected_cube();
    merge_overlapping(&mut mesh);

    assert_eq!(8, mesh.no_vertices());
    assert_eq!(36, mesh.no_halfedges());
    assert_eq!(12, mesh.no_faces());
    mesh.is_valid().unwrap();
}

#[test]
fn merging_and_splitting_test_merge_overlapping_primitives_of_cube() {
    let mut mesh = unconnected_cube();
    merge_overlapping(&mut mesh);

    assert_eq!(8, mesh.no_vertices());
    assert_eq!(36, mesh.no_halfedges());
    assert_eq!(12, mesh.no_faces());
    mesh.is_valid().unwrap();
}

fn individual_faces() -> Mesh<f64> {
    let positions: Vec<f64> = vec![
        0.0, 0.0, 0.0, 1.0, 0.0, -0.5, -1.0, 0.0, -0.5, 0.0, 0.0, 0.0, -1.0, 0.0, -0.5, 0.0, 0.0, 1.0, 0.0, 0.0,
        0.0, -1.0, 0.0, -0.5, 0.0, 0.0, 1.0,
    ];
    Mesh::new((0..9).collect(), positions)
}

#[test]
fn cleanup_test_merge_overlapping_individual_faces() {
    let mut mesh = individual_faces();
    merge_overlapping(&mut mesh);

    assert_eq!(4, mesh.no_vertices());
    assert_eq!(10, mesh.no_halfedges());
    assert_eq!(2, mesh.no_faces());
    mesh.is_valid().unwrap();
}

#[test]
fn merging_and_splitting_test_merge_overlapping_individual_faces() {
    let mut mesh = individual_faces();
    merge_overlapping(&mut mesh);

    assert_eq!(4, mesh.no_vertices());
    assert_eq!(10, mesh.no_halfedges());
    assert_eq!(2, mesh.no_faces());
    mesh.is_valid().unwrap();
}

fn two_overlapping_faces() -> Mesh<f64> {
    let indices: Vec<u32> = vec![0, 1, 2, 1, 3, 2, 4, 6, 5, 6, 7, 5];
    let positions: Vec<f64> = vec![
        0.0, 0.0, 0.0, -1.0, 0.0, 0.0, -0.5, 0.0, 1.0, -1.5, 0.0, 1.0, -1.0, 0.0, 0.0, -0.5, 0.0, 1.0, -1.5, 0.0,
        1.0, -1.0, 0.0, 1.5,
    ];
    Mesh::new(indices, positions)
}

#[test]
fn cleanup_test_merge_two_overlapping_faces() {
    let mut mesh = two_overlapping_faces();
    merge_overlapping(&mut mesh);

    assert_eq!(5, mesh.no_vertices());
    assert_eq!(14, mesh.no_halfedges());
    assert_eq!(3, mesh.no_faces());
    mesh.is_valid().unwrap();
}

#[test]
fn merging_and_splitting_test_merge_two_overlapping_faces() {
    let mut mesh = two_overlapping_faces();
    merge_overlapping(&mut mesh);

    assert_eq!(5, mesh.no_vertices());
    assert_eq!(14, mesh.no_halfedges());
    assert_eq!(3, mesh.no_faces());
    mesh.is_valid().unwrap();
}

#[test]
fn cleanup_test_merge_three_overlapping_faces() {
    let indices: Vec<u32> = vec![0, 1, 2, 1, 3, 2, 4, 6, 5, 6, 7, 5, 8, 10, 9];
    let positions: Vec<f64> = vec![
        0.0, 0.0, 0.0, -1.0, 0.0, 0.0, -0.5, 0.0, 1.0, -1.5, 0.0, 1.0, -1.0, 0.0, 0.0, -0.5, 0.0, 1.0, -1.5, 0.0,
        1.0, -1.0, 0.0, 1.5, -1.0, 0.0, 0.0, -0.5, 0.0, 1.0, -1.5, 0.0, 1.0,
    ];
    let mut mesh = Mesh::new(indices, positions);
    merge_overlapping(&mut mesh);

    assert_eq!(5, mesh.no_vertices());
    assert_eq!(14, mesh.no_halfedges());
    assert_eq!(3, mesh.no_faces());
    mesh.is_valid().unwrap();
}

#[test]
fn overlapping_edges_are_grouped_by_vertex_groups() {
    let mesh = three_faces_meeting_at_origin();
    let groups = overlapping_vertices(&mesh);
    assert_eq!(4, groups.len());
    let edges = mesh.find_overlapping_edges(&groups);
    assert_eq!(3, edges.len());
    for group in edges.iter() {
        assert_eq!(2, group.len());
        assert!(group[1].get() < group[0].get());
    }
    let faces = mesh.find_overlapping_faces(&groups);
    assert_eq!(0, faces.len());
}

#[test]
fn overlapping_faces_are_grouped_by_vertex_groups() {
    let mesh = two_overlapping_faces();
    let groups = overlapping_vertices(&mesh);
    let faces = mesh.find_overlapping_faces(&groups);
    assert_eq!(1, faces.len());
    assert_eq!(2, faces[0].len());
    let no_groups: Vec<Vec<VertexID>> = Vec::new();
    assert_eq!(0, mesh.find_overlapping_faces(&no_groups).len());
    assert_eq!(0, mesh.find_overlapping_edges(&no_groups).len());
}

fn single_triangle(offset: f64) -> Mesh<f64> {
    Mesh::new(vec![0, 1, 2], vec![0.0 + offset, 0.0, 0.0, 1.0 + offset, 0.0, 0.0, 0.0 + offset, 0.0, 1.0])
}

#[test]
fn append_copies_the_other_mesh_beside_the_first() {
    let mut mesh = single_triangle(0.0);
    let other = Mesh::new(vec![0, 1, 2, 2, 1, 3], vec![5.0, 0.0, 0.0, 6.0, 0.0, 0.0, 5.0, 0.0, 1.0, 6.0, 0.0, 1.0]);
    mesh.append(&other);
    assert_eq!(mesh.no_vertices(), 7);
    assert_eq!(mesh.no_faces(), 3);
    assert_eq!(mesh.no_halfedges(), 16);
    mesh.is_valid().unwrap();
    let positions: Vec<[f64; 3]> = mesh.vertex_iter().iter().map(|v| mesh.vertex_position(*v)).collect();
    assert!(positions.contains(&[6.0, 0.0, 1.0]));
}

#[test]
fn merge_with_stitches_two_triangles_along_their_shared_edge() {
    let mut mesh = Mesh::new(vec![0, 1, 2], vec![0.0, 0.0, 0.0, 1.0, 0.0, 0.0, 0.0, 0.0, 1.0]);
    let other = Mesh::new(vec![0, 1, 2], vec![1.0, 0.0, 0.0, 1.0, 0.0, 1.0, 0.0, 0.0, 1.0]);
    let mut probe = mesh.duplicate();
    probe.append(&other);
    let groups = overlapping_vertices(&probe);
    mesh.merge_with(&other, &groups).unwrap();
    assert_eq!(mesh.no_vertices(), 4);
    assert_eq!(mesh.no_faces(), 2);
    assert_eq!(mesh.no_halfedges(), 10);
    mesh.is_valid().unwrap();
}
