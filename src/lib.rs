//! Voxel chunk meshing: turns a sparse list of typed voxels into compact,
//! render-ready triangle meshes, culling hidden faces, merging coplanar faces
//! of solid voxels into larger quads and quantizing vertex attributes.
//!
//! Every fractional quantity of the geometry catalog is held as a signed
//! fixed-point integer with sixteen fractional bits (`FIX_ONE` is 1.0).
pub mod direction;
pub mod encode;
pub mod catalog;
pub mod grid;
pub mod mesh;
pub mod visibility;
pub mod naive;
pub mod rects;
pub mod greedy;
pub mod builder;
pub mod totals;

pub use builder::{BuildResult, MeshBuilder};
pub use catalog::{GeometryVariant, PaletteEntry, PaletteRecord};
pub use direction::FaceDir;
pub use encode::{IndexBuffer, MaterialGroup};
pub use mesh::MergedMesh;
pub use naive::BuildError;
