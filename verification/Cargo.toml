[package]
name = "voxelization"
version = "0.1.0"
edition = "2021"
publish = false

[dependencies]
bvh = "=0.13.0"
float-ord = "=0.3.2"
fnv = "=1.0.7"
petgraph = "=0.8.3"
tri-mesh = "=0.5.0"
