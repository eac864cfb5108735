//! Every error describes itself in words that name the offending entry.

use ares::{
    InvalidBoundary, InvalidConditions, InvalidInterface, InvalidMesh, MisshapedField,
    MisshapedLoad,
};

#[test]
fn mesh_errors_describe_themselves() {
    assert_eq!(InvalidMesh::NoNodes.message(), "the mesh has no nodes");
    assert_eq!(InvalidMesh::NoCells.message(), "the mesh has no cells");
    assert_eq!(
        InvalidMesh::NodeIndexOutOfRange {
            cell: 0,
            position: 2,
            node: 9,
            nodes: 5
        }
        .message(),
        "cell 0 position 2 names node 9, but the mesh has 5"
    );
    assert_eq!(
        InvalidMesh::DegenerateCell { cell: 12 }.message(),
        "cell 12 is degenerate and has no measure"
    );
    assert_eq!(
        InvalidMesh::InvertedCell { cell: 307 }.message(),
        "cell 307 is inverted; its measure is negative"
    );
    assert_eq!(
        InvalidMesh::NonFiniteCell { cell: 10 }.message(),
        "cell 10 has a measure that is not finite"
    );
}

#[test]
fn field_errors_describe_themselves() {
    assert_eq!(
        MisshapedField::Displacement {
            expected: 10,
            found: 9
        }
        .message(),
        "the displacement field has 9 entries, but the mesh has 10 degrees of freedom"
    );
    assert_eq!(
        MisshapedField::Force {
            expected: 10,
            found: 0
        }
        .message(),
        "the force field has 0 entries, but the mesh has 10 degrees of freedom"
    );
    assert_eq!(
        MisshapedField::Load {
            expected: 4,
            found: 3
        }
        .message(),
        "the applied load field has 3 entries, but the mesh has 4 degrees of freedom"
    );
    assert_eq!(
        MisshapedField::Scratch {
            expected: 4,
            found: 1000
        }
        .message(),
        "the scratch field has 1000 entries, but the mesh has 4 degrees of freedom"
    );
    assert_eq!(
        MisshapedLoad {
            expected: 6,
            found: 5
        }
        .message(),
        "the load vector has 5 entries, but the mesh has 6 degrees of freedom"
    );
}

#[test]
fn boundary_errors_describe_themselves() {
    assert_eq!(
        InvalidBoundary::NodeOutOfRange {
            facet: 0,
            position: 1,
            node: 5,
            nodes: 2
        }
        .message(),
        "facet 0 position 1 names node 5, but the mesh has 2"
    );
    assert_eq!(
        InvalidBoundary::DegenerateFacet { facet: 3 }.message(),
        "facet 3 has no measure"
    );
    assert_eq!(
        InvalidBoundary::NonFiniteFacet { facet: 3 }.message(),
        "facet 3 has a measure that is not finite"
    );
    assert_eq!(
        InvalidConditions::NodeOutOfRange {
            position: 0,
            node: 9,
            nodes: 5
        }
        .message(),
        "condition 0 names node 9, but the mesh has 5"
    );
    assert_eq!(
        InvalidConditions::ComponentOutOfRange {
            position: 1,
            component: 2,
            dimensions: 2
        }
        .message(),
        "condition 1 names component 2 of a 2-dimensional displacement"
    );
    assert_eq!(
        InvalidConditions::NotStrictlyIncreasing {
            position: 1,
            degree_of_freedom: 2,
            previous: 4
        }
        .message(),
        "condition 1 constrains degree of freedom 2, which does not exceed the previous 4"
    );
}

#[test]
fn interface_errors_describe_themselves() {
    assert_eq!(
        InvalidInterface::NoNodes.message(),
        "the interface carries no nodes"
    );
    assert_eq!(
        InvalidInterface::NoFacets.message(),
        "the interface carries no facets"
    );
    assert_eq!(
        InvalidInterface::NodeOutOfRange {
            position: 1,
            node: 15,
            nodes: 15
        }
        .message(),
        "interface position 1 names node 15, but the mesh has 15"
    );
    assert_eq!(
        InvalidInterface::DuplicateNode {
            position: 1,
            node: 4
        }
        .message(),
        "node 4 appears again at interface position 1"
    );
    assert_eq!(
        InvalidInterface::FacetNodeNotOnInterface {
            facet: 0,
            position: 1,
            node: 0
        }
        .message(),
        "facet 0 position 1 names node 0, which is not on the interface"
    );
    assert_eq!(
        InvalidInterface::MisshapedExchange {
            expected: 4,
            found: 3
        }
        .message(),
        "the exchange buffer has 3 entries, but the interface expects 4"
    );
}

#[test]
fn large_indices_are_written_in_full() {
    assert_eq!(
        InvalidMesh::DegenerateCell {
            cell: 18_446_744_073_709_551_615
        }
        .message(),
        "cell 18446744073709551615 is degenerate and has no measure"
    );
}
