[package]
name = "tri-mesh"
version = "0.6.0"
edition = "2021"
publish = false

[dependencies]
cgmath = "0.18"
three-d-asset = { version = "*", default-features = false }
thiserror = "1"
wavefront_obj = "*"
