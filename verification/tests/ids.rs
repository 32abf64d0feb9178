use tri_mesh::{VertexID, ID};

#[test]
fn test_equality() {
    let v0 = VertexID::new(0);
    let v1 = VertexID::new(1);
    let v1_ = VertexID::new(1);

    assert!(v0 != v1);
    assert!(v1 == v1_);
}
