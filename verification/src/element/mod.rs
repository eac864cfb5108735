//! Linear simplex elements.
//!
//! Elements are borrowed views over mesh-owned node coordinates: this module
//! interprets a cell's nodes as an element and never stores geometry of its
//! own.

pub mod checked;
mod simplex;

pub use simplex::{DegenerateElement, Simplex};
