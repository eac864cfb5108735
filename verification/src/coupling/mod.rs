//! The structural side of a coupling interface: its exchange ordering, its
//! conformity to the mesh, and the moves of data across it.

mod interface;

pub use interface::{
    exported_before, facet_on_interface, interface_node_admissible, lemma_slot_decomposes, slot,
    InvalidInterface,
    StructuralInterface,
};
