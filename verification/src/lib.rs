//! Exact-arithmetic kernel for voxelizing triangle meshes whose faces carry
//! a material.
//!
//! A mesh is cut by evenly spaced planes along the axes into slabs and
//! cells; the part of the mesh in a unit cell is closed along the faces of
//! the cell into a mesh of its own, and the stretches along an axis on
//! which the mesh is entered or left tell full cells from empty ones.
//!
//! Coordinates are fixed-point integers: one world unit is `UNIT` lattice
//! steps, so every geometric predicate is decided without rounding.
//!
//! - `lattice`: coordinates, tolerances, snapping onto slice planes
//! - `material_mesh`: materials, axes, meshes as indexed triangles
//! - `gradient`, `closed`: in-out gradients along an axis, and why they
//!   cancel over a closed mesh
//! - `slab`: the slabs of a contoured mesh
//! - `contour`, `decimate`, `collapse`: what is cut, flipped, removed and
//!   collapsed in a half-edge mesh that someone else holds
//! - `boundary`, `cube`, `graph`: the boundary of a mesh and its part on a
//!   face of the unit cube
//! - `square`, `closing`: closing that boundary along the outline of the face
//! - `triangulate`: triangles for the region that the outline encloses
//! - `manifold`, `fans`, `unionfind`: a manifold mesh from a triangle soup
//! - `cell`: the mesh of one unit cell
//! - `seqs`: facts about sequences

pub mod boundary;
pub mod cell;
pub mod closed;
pub mod closing;
pub mod collapse;
pub mod contour;
pub mod cube;
pub mod decimate;
pub mod fans;
pub mod gradient;
pub mod graph;
pub mod lattice;
pub mod manifold;
pub mod material_mesh;
pub mod seqs;
pub mod slab;
pub mod square;
pub mod triangulate;
pub mod unionfind;
