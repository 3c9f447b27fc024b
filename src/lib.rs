//! Tiled escape-time rendering: a job is split into full-width row bands,
//! each band is shaded independently from per-pixel iteration counts, and the
//! bands are stored as grayscale PNG artifacts and concatenated back in order.
pub mod error;
pub mod tiling;
pub mod shade;
pub mod merge;
pub mod artifact;
