//! Multi-resolution histogram of building-corner angles.
//!
//! The crate holds the out-of-core aggregation pipeline: a fixed-stride
//! coordinate store keyed by point ID, a self-delimiting corpus of building
//! rings, cyclic corner enumeration, and a zoom-pyramid reduction whose
//! conservation law is proved.

pub mod coords;
pub mod corners;
pub mod corpus;
pub mod encoding;
pub mod histogram;
pub mod pipeline;
pub mod pyramid;

