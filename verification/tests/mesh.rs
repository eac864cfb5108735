//! Mesh validation: every condition assembly refuses to run on.

use ares::assembly::{gather, gather_nodal};
use ares::{FieldRole, Geometry, InvalidMesh, MisshapedField, SimplexMesh};

/// The signed area of a triangle, judged as the mesh validation expects.
fn triangle_geometry(nodes: &[[f64; 2]], cell: &[usize; 3]) -> Geometry {
    let [a, b, c] = [nodes[cell[0]], nodes[cell[1]], nodes[cell[2]]];
    let area = ((b[0] - a[0]) * (c[1] - a[1]) - (c[0] - a[0]) * (b[1] - a[1])) / 2.0;
    if !area.is_finite() {
        Geometry::NonFinite
    } else if area < 0.0 {
        Geometry::Inverted
    } else if area <= 0.0 {
        Geometry::Degenerate
    } else {
        Geometry::Sound
    }
}

/// A distorted unit square: four corners and one off-centre interior node,
/// triangulated into four cells that meet at the interior node.
fn square_patch() -> ([[f64; 2]; 5], [[usize; 3]; 4], usize) {
    let nodes = [[0.0, 0.0], [1.0, 0.0], [1.0, 1.0], [0.0, 1.0], [0.37, 0.61]];
    let cells = [[0, 1, 4], [1, 2, 4], [2, 3, 4], [3, 0, 4]];
    (nodes, cells, 4)
}

fn check_out_of_range_node_index() {
    let (nodes, _, _) = square_patch();
    let cells = [[0, 1, 9]];
    assert_eq!(
        SimplexMesh::try_new(&nodes, &cells, triangle_geometry)
            .expect_err("node 9 is beyond the patch"),
        InvalidMesh::NodeIndexOutOfRange {
            cell: 0,
            position: 2,
            node: 9,
            nodes: 5,
        }
    );
}

fn check_degenerate_cell() {
    // Three collinear nodes: no area, so no shape gradients.
    let nodes = [[0.0_f64, 0.0], [1.0, 0.0], [2.0, 0.0], [0.0, 1.0]];
    let cells = [[0, 1, 3], [0, 1, 2]];
    assert_eq!(
        SimplexMesh::try_new(&nodes, &cells, triangle_geometry)
            .expect_err("the collinear cell has no area"),
        InvalidMesh::DegenerateCell { cell: 1 }
    );
}

fn check_repeated_node() {
    // The same node twice collapses the element without any coordinate being
    // unusual.
    let nodes = [[0.0_f64, 0.0], [1.0, 0.0], [0.0, 1.0]];
    let cells = [[0, 1, 1]];
    assert_eq!(
        SimplexMesh::try_new(&nodes, &cells, triangle_geometry)
            .expect_err("the repeated node collapses the cell"),
        InvalidMesh::DegenerateCell { cell: 0 }
    );
}

fn check_inverted_cell() {
    let nodes = [[0.0_f64, 0.0], [1.0, 0.0], [0.0, 1.0]];
    let cells = [[0, 2, 1]];
    assert_eq!(
        SimplexMesh::try_new(&nodes, &cells, triangle_geometry)
            .expect_err("the cell is wound clockwise"),
        InvalidMesh::InvertedCell { cell: 0 }
    );
}

fn check_non_finite_coordinates() {
    let nodes = [[0.0_f64, 0.0], [f64::NAN, 0.0], [0.0, 1.0]];
    let cells = [[0, 1, 2]];
    assert_eq!(
        SimplexMesh::try_new(&nodes, &cells, triangle_geometry)
            .expect_err("a NaN coordinate has no measure"),
        InvalidMesh::NonFiniteCell { cell: 0 }
    );
}

fn check_empty_mesh() {
    let nodes: [[f64; 2]; 0] = [];
    let cells = [[0, 1, 2]];
    assert_eq!(
        SimplexMesh::try_new(&nodes, &cells, triangle_geometry)
            .expect_err("the mesh has no nodes"),
        InvalidMesh::NoNodes
    );

    let (nodes, _, _) = square_patch();
    let cells: [[usize; 3]; 0] = [];
    assert_eq!(
        SimplexMesh::try_new(&nodes, &cells, triangle_geometry)
            .expect_err("the mesh has no cells"),
        InvalidMesh::NoCells
    );
}

#[test]
fn mesh_validation_an_out_of_range_node_index_is_rejected() {
    check_out_of_range_node_index();
}

#[test]
fn assembly_an_out_of_range_node_index_is_rejected() {
    check_out_of_range_node_index();
}

#[test]
fn mesh_validation_a_degenerate_cell_is_rejected() {
    check_degenerate_cell();
}

#[test]
fn assembly_a_degenerate_cell_is_rejected() {
    check_degenerate_cell();
}

#[test]
fn mesh_validation_a_repeated_node_within_a_cell_is_rejected() {
    check_repeated_node();
}

#[test]
fn assembly_a_repeated_node_within_a_cell_is_rejected() {
    check_repeated_node();
}

#[test]
fn mesh_validation_an_inverted_cell_is_rejected() {
    check_inverted_cell();
}

#[test]
fn assembly_an_inverted_cell_is_rejected() {
    check_inverted_cell();
}

#[test]
fn mesh_validation_non_finite_coordinates_are_rejected() {
    check_non_finite_coordinates();
}

#[test]
fn assembly_non_finite_coordinates_are_rejected() {
    check_non_finite_coordinates();
}

#[test]
fn mesh_validation_an_empty_mesh_is_rejected() {
    check_empty_mesh();
}

#[test]
fn assembly_an_empty_mesh_is_rejected() {
    check_empty_mesh();
}

#[test]
fn a_valid_patch_reports_its_size() {
    let (nodes, cells, _) = square_patch();
    let mesh = SimplexMesh::try_new(&nodes, &cells, triangle_geometry).expect("valid patch");
    assert_eq!(mesh.node_count(), 5);
    assert_eq!(mesh.degrees_of_freedom(), 10);
    assert_eq!(mesh.cells().len(), 4);
    assert_eq!(mesh.nodes()[4], [0.37, 0.61]);
    assert_eq!(mesh.cells()[2], [2, 3, 4]);
}

#[test]
fn cells_are_judged_in_order_and_index_checks_come_first() {
    // Cell 0 is inverted and cell 1 names a missing node: the first cell's
    // failure is the one reported. Within one cell the indices are checked
    // before the geometry is looked at.
    let nodes = [[0.0_f64, 0.0], [1.0, 0.0], [0.0, 1.0]];
    let cells = [[0, 2, 1], [0, 1, 7]];
    assert_eq!(
        SimplexMesh::try_new(&nodes, &cells, triangle_geometry).expect_err("inverted first"),
        InvalidMesh::InvertedCell { cell: 0 }
    );
    let cells = [[0, 1, 2], [0, 7, 1]];
    assert_eq!(
        SimplexMesh::try_new(&nodes, &cells, triangle_geometry).expect_err("index next"),
        InvalidMesh::NodeIndexOutOfRange {
            cell: 1,
            position: 1,
            node: 7,
            nodes: 3,
        }
    );
}

#[test]
fn the_judge_is_never_asked_about_an_out_of_range_cell() {
    let nodes = [[0.0_f64, 0.0], [1.0, 0.0], [0.0, 1.0]];
    let cells = [[0, 1, 5]];
    let judged = std::cell::Cell::new(0);
    let verdict = SimplexMesh::try_new(&nodes, &cells, |n: &[[f64; 2]], c: &[usize; 3]| {
        judged.set(judged.get() + 1);
        triangle_geometry(n, c)
    });
    assert!(verdict.is_err());
    assert_eq!(judged.get(), 0);
}

#[test]
fn gather_copies_a_cells_coordinates_in_order() {
    let (nodes, cells, _) = square_patch();
    assert_eq!(
        gather(&nodes, &cells[1]),
        [[1.0, 0.0], [1.0, 1.0], [0.37, 0.61]]
    );
}

#[test]
fn gather_nodal_reads_the_flat_layout() {
    // Degree of freedom `node * 2 + component`.
    let field = [0.0_f64, 0.5, 1.0, 1.5, 2.0, 2.5, 3.0, 3.5, 4.0, 4.5];
    let values: [[f64; 2]; 3] = gather_nodal(&field, &[4, 0, 2]);
    assert_eq!(values, [[4.0, 4.5], [0.0, 0.5], [2.0, 2.5]]);
}

#[test]
fn a_field_is_checked_against_the_degrees_of_freedom() {
    let (nodes, cells, _) = square_patch();
    let mesh = SimplexMesh::try_new(&nodes, &cells, triangle_geometry).expect("valid patch");
    assert_eq!(mesh.degrees_of_freedom(), 10);
    assert_eq!(mesh.check_field(FieldRole::Displacement, 10), Ok(()));
    assert_eq!(
        mesh.check_field(FieldRole::Displacement, 9),
        Err(MisshapedField::Displacement {
            expected: 10,
            found: 9,
        })
    );
    assert_eq!(
        mesh.check_field(FieldRole::Force, 11),
        Err(MisshapedField::Force {
            expected: 10,
            found: 11,
        })
    );
    assert_eq!(
        mesh.check_field(FieldRole::Load, 0),
        Err(MisshapedField::Load {
            expected: 10,
            found: 0,
        })
    );
    assert_eq!(
        mesh.check_field(FieldRole::Scratch, 20),
        Err(MisshapedField::Scratch {
            expected: 10,
            found: 20,
        })
    );
}
