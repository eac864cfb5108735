//! Traction boundaries: facets validated against the mesh they load.

use ares::{Geometry, InvalidBoundary, MisshapedLoad, TractionBoundary, TractionFacet};

/// The length of a 2-D facet, judged as the boundary validation expects.
fn segment_geometry(nodes: &[[f64; 2]], facet: &[usize; 2]) -> Geometry {
    let [a, b] = [nodes[facet[0]], nodes[facet[1]]];
    let squared = (b[0] - a[0]) * (b[0] - a[0]) + (b[1] - a[1]) * (b[1] - a[1]);
    let length = if squared > 0.0 { squared.sqrt() } else { 0.0 };
    if !length.is_finite() {
        Geometry::NonFinite
    } else if length <= 0.0 {
        Geometry::Degenerate
    } else {
        Geometry::Sound
    }
}

fn check_invalid_traction_boundary() {
    let nodes = [[0.0_f64, 0.0], [1.0, 0.0]];
    let facets = [TractionFacet::new([0, 5], [1.0_f64, 0.0])];
    assert_eq!(
        TractionBoundary::try_new(&facets, &nodes, segment_geometry)
            .expect_err("node 5 is beyond the mesh"),
        InvalidBoundary::NodeOutOfRange {
            facet: 0,
            position: 1,
            node: 5,
            nodes: 2,
        }
    );

    let facets = [TractionFacet::new([0, 0], [1.0_f64, 0.0])];
    assert_eq!(
        TractionBoundary::try_new(&facets, &nodes, segment_geometry)
            .expect_err("the facet has no length"),
        InvalidBoundary::DegenerateFacet { facet: 0 }
    );
}

#[test]
fn neumann_an_invalid_traction_boundary_is_rejected() {
    check_invalid_traction_boundary();
}

#[test]
fn boundary_an_invalid_traction_boundary_is_rejected() {
    check_invalid_traction_boundary();
}

#[test]
fn a_non_finite_facet_is_rejected() {
    let nodes = [[0.0_f64, 0.0], [f64::INFINITY, 0.0]];
    let facets = [TractionFacet::new([0, 1], [1.0_f64, 0.0])];
    assert_eq!(
        TractionBoundary::try_new(&facets, &nodes, segment_geometry)
            .expect_err("an infinite facet"),
        InvalidBoundary::NonFiniteFacet { facet: 0 }
    );
}

#[test]
fn an_inverted_verdict_on_a_facet_means_no_measure() {
    let nodes = [[0.0_f64, 0.0], [1.0, 0.0]];
    let facets = [TractionFacet::new([0, 1], [1.0_f64, 0.0])];
    assert_eq!(
        TractionBoundary::try_new(&facets, &nodes, |_: &[[f64; 2]], _: &[usize; 2]| {
            Geometry::Inverted
        })
        .expect_err("a facet has no sign"),
        InvalidBoundary::DegenerateFacet { facet: 0 }
    );
}

#[test]
fn a_valid_boundary_keeps_its_facets_in_order() {
    let nodes = [[0.0_f64, 0.0], [1.0, 0.0], [2.0, 0.0]];
    let facets = [
        TractionFacet::new([0, 1], [0.0_f64, -3.0]),
        TractionFacet::new([1, 2], [0.0_f64, -3.0]),
    ];
    let boundary = TractionBoundary::try_new(&facets, &nodes, segment_geometry).expect("valid");
    assert_eq!(boundary.facets().len(), 2);
    assert_eq!(boundary.facets()[1].nodes(), &[1, 2]);
    assert_eq!(boundary.facets()[0].traction(), &[0.0, -3.0]);
    assert_eq!(boundary.facets()[0], facets[0]);
}

#[test]
fn the_first_offending_facet_is_reported() {
    let nodes = [[0.0_f64, 0.0], [1.0, 0.0], [2.0, 0.0]];
    let facets = [
        TractionFacet::new([0, 1], [1.0_f64, 0.0]),
        TractionFacet::new([2, 2], [1.0_f64, 0.0]),
        TractionFacet::new([0, 8], [1.0_f64, 0.0]),
    ];
    assert_eq!(
        TractionBoundary::try_new(&facets, &nodes, segment_geometry).expect_err("facet 1"),
        InvalidBoundary::DegenerateFacet { facet: 1 }
    );
}

#[test]
fn a_load_vector_is_checked_against_the_nodes() {
    assert_eq!(MisshapedLoad::check::<2>(5, 10), Ok(()));
    assert_eq!(
        MisshapedLoad::check::<3>(5, 10),
        Err(MisshapedLoad {
            expected: 15,
            found: 10,
        })
    );
    assert_eq!(
        MisshapedLoad::check::<2>(0, 1),
        Err(MisshapedLoad {
            expected: 0,
            found: 1,
        })
    );
}
