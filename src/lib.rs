//! Bounding boxes of vector scenes and cubic-to-quadratic path rewriting,
//! on fixed-point integer geometry.

pub mod bbox_facts;
pub mod canon;
pub mod curve;
pub mod geom;
pub mod outline;
pub mod path;
pub mod reduce;
pub mod scene;
