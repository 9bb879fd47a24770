//! A two-axis box-model layout kernel for presentation trees.
//!
//! Given a tree of visual elements, each with an intrinsic sizing need
//! supplied by an external measurement provider, the kernel computes per
//! axis how much space each element wants (its requisition) and how the
//! actually available space is distributed (its allocation), supporting
//! fixed-size, stretchy and reference-point-aligned content, linear
//! stacking, perpendicular centering, and greedy line-wrapping.

pub mod lreq;
pub mod lalloc;
pub mod flow_layout;
pub mod vertical_layout;
pub mod element;
pub mod pres;
