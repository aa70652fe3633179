//! Loader core for Wavefront-style model text: a line parser for positions,
//! texture coordinates, normals and faces, resolution of the format's 1-based
//! index spaces into flat per-corner vertex records, and triangulation of
//! quad faces into a triangle-list ordering.
//!
//! Numeric scalars are carried as their source tokens (validated byte
//! strings), so that every stage of the pipeline is exact: what a stage
//! emits is pinned down, byte for byte, by its contract.

pub mod text;

pub mod obj;

pub mod laws;
