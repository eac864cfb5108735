//! Solid momentum balance: the discrete bookkeeping of small-strain linear
//! elastostatics on an unstructured simplex mesh.
//!
//! This crate holds the parts of the balance that are decided by indices and
//! layouts rather than by arithmetic on the scalar field: the degree-of-freedom
//! layout, validation of meshes, boundary conditions and coupling interfaces,
//! and the Dirichlet projections that close the constrained system.

pub mod assembly;
pub mod boundary;
pub mod coupling;
pub mod element;
pub mod text;

pub use boundary::{
    DirichletConditions, InvalidBoundary, InvalidConditions, MisshapedLoad, PrescribedDisplacement,
    TractionBoundary, TractionFacet,
};
pub use element::{DegenerateElement, Simplex};
pub use assembly::{FieldRole, Geometry, InvalidMesh, MisshapedField, SimplexMesh};
pub use coupling::{InvalidInterface, StructuralInterface};
