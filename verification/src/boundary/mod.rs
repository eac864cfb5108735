//! Boundary conditions that close the momentum balance.
//!
//! Both kinds are typed rather than expressed as index manipulation on an
//! assembled system: a Dirichlet condition applied by striking rows out of a
//! matrix, or a Neumann load applied where a traction was meant, produces a
//! system that still solves, so the error would surface as a wrong field.

mod dirichlet;
mod traction;

pub use dirichlet::{
    carried, condition_admissible, degree_of_freedom_fits, imposed,
    lemma_accepted_conditions_apply_exactly, lemma_degree_of_freedom_decomposes,
    lemma_constrained_rows_are_identity_rows, lemma_degree_of_freedom_is_injective,
    lemma_imposing_is_idempotent, lemma_imposing_overrides_projection,
    lemma_projection_is_idempotent, prescription, projected, DirichletConditions,
    InvalidConditions, PrescribedDisplacement,
};
pub use traction::{
    facet_accepted, InvalidBoundary, MisshapedLoad, TractionBoundary, TractionFacet,
};
