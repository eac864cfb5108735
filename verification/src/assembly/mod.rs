//! Global assembly over a simplex mesh: the mesh itself, its validation, and
//! the layout that maps nodal quantities onto flat fields.

mod field;
mod mesh;

pub use field::{FieldRole, MisshapedField};
pub use mesh::{
    cell_accepted, cell_in_range, cell_judged, gather, gather_nodal, judged, Geometry,
    InvalidMesh, SimplexMesh,
};
