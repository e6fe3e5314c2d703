//! A style-resolution and box-layout engine: given a tree of styled nodes
//! (elements and text runs), it computes for every node a concrete pixel-space
//! border box and a fully resolved style, ready for a separate rasterizer.
//!
//! Geometry is carried in whole pixels (`u64`), clamped to [`geom::GEOM_MAX`]:
//! additions saturate at that bound and subtractions stop at zero, so every
//! layout pass is total and every computed box is finite and non-negative.
//!
//! The node store is an append-only arena whose every edge points forward:
//! a child's slot index is greater than its parent's, so trees are built
//! top-down (parents before children) and cycles are impossible by
//! construction — that is what bounds every recursive pass. An append that
//! would break the discipline is refused and reports `false`; this is the
//! intended API contract, not a best-effort check.

pub mod debug;
pub mod dom;
pub mod events;
pub mod flex;
pub mod floats;
pub mod fragment;
pub mod geom;
pub mod layout;
pub mod node;
pub mod resolve;
pub mod style;
pub mod text;
