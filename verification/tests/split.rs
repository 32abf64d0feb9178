use tri_mesh::{Mesh, MeshBuilder, ID};

fn strip() -> Mesh<f64> {
    let indices: Vec<u32> = vec![0, 1, 2, 2, 1, 3, 3, 1, 4, 3, 4, 5];
    let positions: Vec<f64> = vec![
        0.0, 0.0, 0.0, 0.0, 0.0, 1.0, 1.0, 0.0, 0.5, 1.0, 0.0, 1.5, 0.0, 0.0, 2.0, 1.0, 0.0, 2.5,
    ];
    MeshBuilder::new().with_indices(indices).with_positions(positions).build().unwrap()
}

/// Marks the first face of the mesh, by face index.
fn first_face_only(mesh: &Mesh<f64>) -> Vec<bool> {
    let mut included = vec![false; mesh.face_slot_count()];
    let first = mesh.face_iter()[0];
    included[first.get() as usize] = true;
    included
}

#[test]
fn split_test_clone_subset() {
    let mesh = strip();
    let sub_mesh = mesh.clone_subset(&first_face_only(&mesh));

    assert_eq!(sub_mesh.no_faces(), 1);
    assert_eq!(sub_mesh.no_halfedges(), 6);
    assert_eq!(sub_mesh.no_vertices(), 3);
    mesh.is_valid().unwrap();
    sub_mesh.is_valid().unwrap();
}

#[test]
fn merging_and_splitting_test_clone_subset() {
    let mesh = strip();
    let sub_mesh = mesh.clone_subset(&first_face_only(&mesh));

    mesh.is_valid().unwrap();
    sub_mesh.is_valid().unwrap();
}

/// Marks the half-edges whose two vertices both lie strictly between the two heights.
fn cut_between(mesh: &Mesh<f64>, low: f64, high: f64) -> Vec<bool> {
    let mut cut = vec![false; mesh.halfedge_slot_count()];
    for h in mesh.halfedge_iter() {
        let (v0, v1) = mesh.edge_vertices(h);
        let (p0, p1) = (mesh.vertex_position(v0), mesh.vertex_position(v1));
        cut[h.get() as usize] = p0[2] > low && p0[2] < high && p1[2] > low && p1[2] < high;
    }
    cut
}

#[test]
fn split_test_split() {
    let mesh = strip();
    let meshes = mesh.split(&cut_between(&mesh, 0.75, 1.75));

    assert_eq!(meshes.len(), 2);
    let m1 = &meshes[0];
    let m2 = &meshes[1];

    mesh.is_valid().unwrap();
    m1.is_valid().unwrap();
    m2.is_valid().unwrap();

    assert_eq!(m1.no_faces(), 2);
    assert_eq!(m2.no_faces(), 2);
}

#[test]
fn clone_subset_keeps_ids_of_included_faces() {
    let mesh = strip();
    let faces = mesh.face_iter();
    let mut included = vec![false; mesh.face_slot_count()];
    included[faces[1].get() as usize] = true;
    included[faces[2].get() as usize] = true;
    let sub = mesh.clone_subset(&included);
    assert_eq!(sub.face_iter(), vec![faces[1], faces[2]]);
    assert_eq!(sub.no_vertices(), 4);
    // Two faces sharing an edge: five edges, each with two half-edges.
    assert_eq!(sub.no_halfedges(), 10);
    sub.is_valid().unwrap();
}

#[test]
fn clone_subset_of_nothing_and_of_everything() {
    let mesh = strip();
    let none = mesh.clone_subset(&Vec::new());
    assert_eq!(none.no_faces(), 0);
    assert_eq!(none.no_halfedges(), 0);
    assert_eq!(none.no_vertices(), 0);
    let all = mesh.clone_subset(&vec![true; mesh.face_slot_count()]);
    assert_eq!(all.no_faces(), mesh.no_faces());
    assert_eq!(all.no_halfedges(), mesh.no_halfedges());
    assert_eq!(all.no_vertices(), mesh.no_vertices());
    assert_eq!(all.halfedge_iter(), mesh.halfedge_iter());
}

#[test]
fn split_without_cut_gives_one_mesh() {
    let mesh = strip();
    let meshes = mesh.split(&vec![false; mesh.halfedge_slot_count()]);
    assert_eq!(meshes.len(), 1);
    assert_eq!(meshes[0].no_faces(), 4);
}
