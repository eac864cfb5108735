//! The structural coupling interface: conformity and the exchange ordering.

use ares::{Geometry, InvalidInterface, SimplexMesh, StructuralInterface, TractionFacet};

fn triangle_geometry(nodes: &[[f64; 2]], cell: &[usize; 3]) -> Geometry {
    let [a, b, c] = [nodes[cell[0]], nodes[cell[1]], nodes[cell[2]]];
    let area = ((b[0] - a[0]) * (c[1] - a[1]) - (c[0] - a[0]) * (b[1] - a[1])) / 2.0;
    if !area.is_finite() {
        Geometry::NonFinite
    } else if area < 0.0 {
        Geometry::Inverted
    } else if area <= 0.0 {
        Geometry::Degenerate
    } else {
        Geometry::Sound
    }
}

/// A 2-by-1 strip of quads split into triangles, with the `x = 2` face as the
/// coupling interface.
struct Fixture {
    nodes: Vec<[f64; 2]>,
    cells: Vec<[usize; 3]>,
    interface_nodes: Vec<usize>,
    interface_facets: Vec<[usize; 2]>,
}

impl Fixture {
    fn new(columns: usize, rows: usize) -> Self {
        let (width, height) = (2.0_f64, 1.0_f64);
        let index = |c: usize, r: usize| r * (columns + 1) + c;
        let mut nodes = Vec::new();
        for row in 0..=rows {
            for column in 0..=columns {
                nodes.push([
                    width * column as f64 / columns as f64,
                    height * row as f64 / rows as f64,
                ]);
            }
        }
        let mut cells = Vec::new();
        for row in 0..rows {
            for column in 0..columns {
                let (a, b) = (index(column, row), index(column + 1, row));
                let (c, d) = (index(column + 1, row + 1), index(column, row + 1));
                cells.push([a, b, c]);
                cells.push([a, c, d]);
            }
        }
        let interface_nodes: Vec<usize> = (0..=rows).map(|r| index(columns, r)).collect();
        let interface_facets: Vec<[usize; 2]> = (0..rows)
            .map(|r| [index(columns, r), index(columns, r + 1)])
            .collect();
        Self {
            nodes,
            cells,
            interface_nodes,
            interface_facets,
        }
    }
}

#[test]
fn a_non_conforming_interface_is_rejected() {
    // A facet naming a node the interface does not carry is the
    // non-conforming case, and it must fail with a typed error.
    let fixture = Fixture::new(4, 2);
    let mesh = SimplexMesh::try_new(&fixture.nodes, &fixture.cells, triangle_geometry)
        .expect("valid mesh");

    let stray = vec![[fixture.interface_nodes[0], 0]];
    assert_eq!(
        StructuralInterface::try_new(&fixture.interface_nodes, &stray, &mesh)
            .expect_err("node 0 is not on the interface"),
        InvalidInterface::FacetNodeNotOnInterface {
            facet: 0,
            position: 1,
            node: 0,
        }
    );

    let duplicated = vec![fixture.interface_nodes[0], fixture.interface_nodes[0]];
    assert_eq!(
        StructuralInterface::try_new(&duplicated, &fixture.interface_facets, &mesh)
            .expect_err("the exchange ordering repeats a node"),
        InvalidInterface::DuplicateNode {
            position: 1,
            node: fixture.interface_nodes[0],
        }
    );
}

#[test]
fn a_misshaped_exchange_is_rejected() {
    let fixture = Fixture::new(4, 2);
    let mesh = SimplexMesh::try_new(&fixture.nodes, &fixture.cells, triangle_geometry)
        .expect("valid mesh");
    let interface =
        StructuralInterface::try_new(&fixture.interface_nodes, &fixture.interface_facets, &mesh)
            .expect("conforming");
    let mut facets = vec![TractionFacet::new([0_usize; 2], [0.0_f64; 2]); 2];
    assert!(interface.read_traction(&[0.0; 3], &mut facets).is_err());
}

#[test]
fn an_empty_or_out_of_range_interface_is_rejected() {
    let fixture = Fixture::new(4, 2);
    let mesh = SimplexMesh::try_new(&fixture.nodes, &fixture.cells, triangle_geometry)
        .expect("valid mesh");
    let none: Vec<usize> = Vec::new();
    assert_eq!(
        StructuralInterface::try_new(&none, &fixture.interface_facets, &mesh)
            .expect_err("no nodes"),
        InvalidInterface::NoNodes
    );
    let no_facets: Vec<[usize; 2]> = Vec::new();
    assert_eq!(
        StructuralInterface::try_new(&fixture.interface_nodes, &no_facets, &mesh)
            .expect_err("no facets"),
        InvalidInterface::NoFacets
    );
    let beyond = vec![4, 15];
    assert_eq!(
        StructuralInterface::try_new(&beyond, &fixture.interface_facets, &mesh)
            .expect_err("node 15 of 15"),
        InvalidInterface::NodeOutOfRange {
            position: 1,
            node: 15,
            nodes: 15,
        }
    );
}

#[test]
fn a_conforming_interface_reports_its_exchange_dimensions() {
    let fixture = Fixture::new(4, 2);
    let mesh = SimplexMesh::try_new(&fixture.nodes, &fixture.cells, triangle_geometry)
        .expect("valid mesh");
    let interface =
        StructuralInterface::try_new(&fixture.interface_nodes, &fixture.interface_facets, &mesh)
            .expect("conforming");
    assert_eq!(interface.nodes(), &[4, 9, 14]);
    assert_eq!(interface.facets(), &[[4, 9], [9, 14]]);
    assert_eq!(interface.input_dimension(), 4);
    assert_eq!(interface.output_dimension(), 6);
}

#[test]
fn read_traction_is_facet_major() {
    let fixture = Fixture::new(4, 2);
    let mesh = SimplexMesh::try_new(&fixture.nodes, &fixture.cells, triangle_geometry)
        .expect("valid mesh");
    let interface =
        StructuralInterface::try_new(&fixture.interface_nodes, &fixture.interface_facets, &mesh)
            .expect("conforming");
    let mut facets = vec![TractionFacet::new([0_usize; 2], [0.0_f64; 2]); 2];
    interface
        .read_traction(&[1.0, 2.0, 3.0, 4.0], &mut facets)
        .expect("well-shaped");
    assert_eq!(facets[0], TractionFacet::new([4, 9], [1.0, 2.0]));
    assert_eq!(facets[1], TractionFacet::new([9, 14], [3.0, 4.0]));

    let mut short = vec![TractionFacet::new([0_usize; 2], [0.0_f64; 2]); 1];
    assert_eq!(
        interface.read_traction(&[1.0, 2.0, 3.0, 4.0], &mut short),
        Err(InvalidInterface::MisshapedExchange {
            expected: 2,
            found: 1,
        })
    );
    assert_eq!(short[0], TractionFacet::new([0, 0], [0.0, 0.0]));
}

#[test]
fn write_displacement_is_interface_node_major() {
    let fixture = Fixture::new(4, 2);
    let mesh = SimplexMesh::try_new(&fixture.nodes, &fixture.cells, triangle_geometry)
        .expect("valid mesh");
    let interface =
        StructuralInterface::try_new(&fixture.interface_nodes, &fixture.interface_facets, &mesh)
            .expect("conforming");
    let state: Vec<f64> = (0..30).map(|dof| dof as f64).collect();
    let mut exported = vec![0.0_f64; 6];
    interface
        .write_displacement(&state, &mut exported)
        .expect("well-shaped");
    for (position, node) in interface.nodes().iter().enumerate() {
        assert_eq!(exported[position * 2], state[node * 2]);
        assert_eq!(exported[position * 2 + 1], state[node * 2 + 1]);
    }
    assert_eq!(exported, vec![8.0, 9.0, 18.0, 19.0, 28.0, 29.0]);
}

#[test]
fn write_displacement_rejects_misshaped_buffers() {
    let fixture = Fixture::new(4, 2);
    let mesh = SimplexMesh::try_new(&fixture.nodes, &fixture.cells, triangle_geometry)
        .expect("valid mesh");
    let interface =
        StructuralInterface::try_new(&fixture.interface_nodes, &fixture.interface_facets, &mesh)
            .expect("conforming");
    let state = vec![1.0_f64; 30];
    let mut wrong = vec![0.0_f64; 5];
    assert_eq!(
        interface.write_displacement(&state, &mut wrong),
        Err(InvalidInterface::MisshapedExchange {
            expected: 6,
            found: 5,
        })
    );
    let odd = vec![1.0_f64; 29];
    let mut exported = vec![0.0_f64; 6];
    assert_eq!(
        interface.write_displacement(&odd, &mut exported),
        Err(InvalidInterface::MisshapedExchange {
            expected: 28,
            found: 29,
        })
    );
    assert_eq!(exported, vec![0.0; 6]);

    // A state of twelve nodes holds interface nodes 4 and 9 but not 14.
    let partial: Vec<f64> = (0..24).map(|dof| dof as f64).collect();
    assert_eq!(
        interface.write_displacement(&partial, &mut exported),
        Err(InvalidInterface::NodeOutOfRange {
            position: 2,
            node: 14,
            nodes: 12,
        })
    );
    assert_eq!(exported, vec![8.0, 9.0, 18.0, 19.0, 0.0, 0.0]);
}

#[test]
fn a_wrong_length_traction_is_reported_before_the_facets() {
    let fixture = Fixture::new(4, 2);
    let mesh = SimplexMesh::try_new(&fixture.nodes, &fixture.cells, triangle_geometry)
        .expect("valid mesh");
    let interface =
        StructuralInterface::try_new(&fixture.interface_nodes, &fixture.interface_facets, &mesh)
            .expect("conforming");
    let mut facets = vec![TractionFacet::new([0_usize; 2], [0.0_f64; 2]); 2];
    assert_eq!(
        interface.read_traction(&[0.0; 3], &mut facets),
        Err(InvalidInterface::MisshapedExchange {
            expected: 4,
            found: 3,
        })
    );
    let mut none: Vec<TractionFacet<f64, 2>> = Vec::new();
    assert_eq!(
        interface.read_traction(&[0.0; 5], &mut none),
        Err(InvalidInterface::MisshapedExchange {
            expected: 4,
            found: 5,
        })
    );
}

#[test]
fn the_interface_work_checks_traction_then_state() {
    let fixture = Fixture::new(4, 2);
    let mesh = SimplexMesh::try_new(&fixture.nodes, &fixture.cells, triangle_geometry)
        .expect("valid mesh");
    let interface =
        StructuralInterface::try_new(&fixture.interface_nodes, &fixture.interface_facets, &mesh)
            .expect("conforming");
    assert_eq!(interface.check_work_exchange(&mesh, 4, 30), Ok(()));
    assert_eq!(
        interface.check_work_exchange(&mesh, 3, 29),
        Err(InvalidInterface::MisshapedExchange {
            expected: 4,
            found: 3,
        })
    );
    assert_eq!(
        interface.check_work_exchange(&mesh, 4, 28),
        Err(InvalidInterface::MisshapedExchange {
            expected: 30,
            found: 28,
        })
    );
}
