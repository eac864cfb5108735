//! Dirichlet conditions: validation against the mesh, and the projections
//! that build the constrained operator and its right-hand side.

use ares::{DirichletConditions, InvalidConditions, PrescribedDisplacement};

fn check_validated_against_the_mesh() {
    let out_of_range = [PrescribedDisplacement::new(9, 0, 0.0_f64)];
    assert_eq!(
        DirichletConditions::<f64, 2>::try_new(&out_of_range, 5)
            .expect_err("node 9 is beyond the mesh"),
        InvalidConditions::NodeOutOfRange {
            position: 0,
            node: 9,
            nodes: 5,
        }
    );

    let bad_component = [PrescribedDisplacement::new(0, 2, 0.0_f64)];
    assert_eq!(
        DirichletConditions::<f64, 2>::try_new(&bad_component, 5)
            .expect_err("component 2 does not exist in 2-D"),
        InvalidConditions::ComponentOutOfRange {
            position: 0,
            component: 2,
            dimensions: 2,
        }
    );
}

fn check_duplicate_and_unordered_rejected() {
    // A duplicated degree of freedom would resolve by whichever condition the
    // caller listed last, a silent dependence on input order.
    let duplicated = [
        PrescribedDisplacement::new(1, 0, 0.0_f64),
        PrescribedDisplacement::new(1, 0, 5.0),
    ];
    assert_eq!(
        DirichletConditions::<f64, 2>::try_new(&duplicated, 5)
            .expect_err("degree of freedom 2 appears twice"),
        InvalidConditions::NotStrictlyIncreasing {
            position: 1,
            degree_of_freedom: 2,
            previous: 2,
        }
    );

    let unordered = [
        PrescribedDisplacement::new(2, 0, 0.0_f64),
        PrescribedDisplacement::new(1, 0, 0.0),
    ];
    assert_eq!(
        DirichletConditions::<f64, 2>::try_new(&unordered, 5).expect_err("the conditions descend"),
        InvalidConditions::NotStrictlyIncreasing {
            position: 1,
            degree_of_freedom: 2,
            previous: 4,
        }
    );
}

#[test]
fn dirichlet_dirichlet_conditions_are_validated_against_the_mesh() {
    check_validated_against_the_mesh();
}

#[test]
fn boundary_dirichlet_conditions_are_validated_against_the_mesh() {
    check_validated_against_the_mesh();
}

#[test]
fn dirichlet_duplicate_and_unordered_conditions_are_rejected() {
    check_duplicate_and_unordered_rejected();
}

#[test]
fn boundary_duplicate_and_unordered_conditions_are_rejected() {
    check_duplicate_and_unordered_rejected();
}

/// Fix both components of nodes 0 and 3, with node 3 prescribed non-zero.
fn conditions() -> [PrescribedDisplacement<f64>; 4] {
    [
        PrescribedDisplacement::new(0, 0, 0.0),
        PrescribedDisplacement::new(0, 1, 0.0),
        PrescribedDisplacement::new(3, 0, 2.5e-4),
        PrescribedDisplacement::new(3, 1, -1.1e-4),
    ]
}

#[test]
fn accepted_conditions_report_what_they_constrain() {
    let prescribed = conditions();
    let conditions = DirichletConditions::<f64, 2>::try_new(&prescribed, 5).expect("valid");
    assert_eq!(conditions.len(), 4);
    assert!(!conditions.is_empty());
    assert_eq!(conditions.prescribed().len(), 4);
    assert_eq!(conditions.prescribed()[2].degree_of_freedom::<2>(), 6);
    assert_eq!(conditions.prescribed()[3].degree_of_freedom::<2>(), 7);

    let none: [PrescribedDisplacement<f64>; 0] = [];
    let unconstrained = DirichletConditions::<f64, 2>::try_new(&none, 5).expect("valid");
    assert!(unconstrained.is_empty());
    assert_eq!(unconstrained.len(), 0);
}

#[test]
fn a_condition_exposes_its_parts() {
    let condition = PrescribedDisplacement::new(4, 1, 3.5_f64);
    assert_eq!(condition.node(), 4);
    assert_eq!(condition.component(), 1);
    assert_eq!(*condition.value(), 3.5);
    assert_eq!(condition.degree_of_freedom::<2>(), 9);
    assert_eq!(condition.degree_of_freedom::<3>(), 13);
}

#[test]
fn the_last_node_of_the_mesh_may_be_constrained() {
    let prescribed = [PrescribedDisplacement::new(4, 1, 1.0_f64)];
    assert!(DirichletConditions::<f64, 2>::try_new(&prescribed, 5).is_ok());
    assert_eq!(
        DirichletConditions::<f64, 2>::try_new(&prescribed, 4).expect_err("node 4 of 4"),
        InvalidConditions::NodeOutOfRange {
            position: 0,
            node: 4,
            nodes: 4,
        }
    );
}

#[test]
fn the_first_failing_condition_is_reported() {
    // Position 1 descends and position 2 names a missing node; the earlier
    // failure is the one reported.
    let prescribed = [
        PrescribedDisplacement::new(2, 0, 0.0_f64),
        PrescribedDisplacement::new(1, 1, 0.0),
        PrescribedDisplacement::new(9, 0, 0.0),
    ];
    assert_eq!(
        DirichletConditions::<f64, 2>::try_new(&prescribed, 5).expect_err("descends first"),
        InvalidConditions::NotStrictlyIncreasing {
            position: 1,
            degree_of_freedom: 3,
            previous: 4,
        }
    );
}

#[test]
fn project_zeroes_exactly_the_constrained_entries() {
    let prescribed = conditions();
    let conditions = DirichletConditions::<f64, 2>::try_new(&prescribed, 5).expect("valid");
    let mut field = [1.0_f64, 2.0, 3.0, 4.0, 5.0, 6.0, 7.0, 8.0, 9.0, 10.0];
    conditions.project(&mut field, 0.0);
    assert_eq!(field, [0.0, 0.0, 3.0, 4.0, 5.0, 6.0, 0.0, 0.0, 9.0, 10.0]);

    // The projection is idempotent.
    let once = field;
    conditions.project(&mut field, 0.0);
    assert_eq!(field, once);
}

#[test]
fn impose_writes_the_prescribed_values() {
    let prescribed = conditions();
    let conditions = DirichletConditions::<f64, 2>::try_new(&prescribed, 5).expect("valid");
    let mut field = [1.0_f64; 10];
    conditions.impose(&mut field);
    assert_eq!(
        field,
        [0.0, 0.0, 1.0, 1.0, 1.0, 1.0, 2.5e-4, -1.1e-4, 1.0, 1.0]
    );
}

#[test]
fn carry_copies_only_the_constrained_entries() {
    let prescribed = conditions();
    let conditions = DirichletConditions::<f64, 2>::try_new(&prescribed, 5).expect("valid");
    let source = [10.0_f64, 11.0, 12.0, 13.0, 14.0, 15.0, 16.0, 17.0, 18.0, 19.0];
    let mut target = [0.5_f64; 10];
    conditions.carry(&source, &mut target);
    assert_eq!(
        target,
        [10.0, 11.0, 0.5, 0.5, 0.5, 0.5, 16.0, 17.0, 0.5, 0.5]
    );
}

#[test]
fn projections_skip_entries_beyond_a_short_field() {
    let prescribed = conditions();
    let conditions = DirichletConditions::<f64, 2>::try_new(&prescribed, 5).expect("valid");
    let mut short = [1.0_f64, 2.0, 3.0, 4.0];
    conditions.impose(&mut short);
    assert_eq!(short, [0.0, 0.0, 3.0, 4.0]);
    let mut short = [1.0_f64, 2.0, 3.0, 4.0];
    conditions.project(&mut short, 0.0);
    assert_eq!(short, [0.0, 0.0, 3.0, 4.0]);
    let source = [9.0_f64; 3];
    let mut target = [1.0_f64; 10];
    conditions.carry(&source, &mut target);
    assert_eq!(target, [9.0, 9.0, 1.0, 1.0, 1.0, 1.0, 1.0, 1.0, 1.0, 1.0]);
}

#[test]
fn projecting_then_carrying_leaves_identity_rows() {
    // The constrained operator's output on a constrained row is its input.
    let prescribed = conditions();
    let conditions = DirichletConditions::<f64, 2>::try_new(&prescribed, 5).expect("valid");
    let input = [1.0_f64, 2.0, 3.0, 4.0, 5.0, 6.0, 7.0, 8.0, 9.0, 10.0];
    let mut output = [-1.0_f64, -2.0, -3.0, -4.0, -5.0, -6.0, -7.0, -8.0, -9.0, -10.0];
    conditions.project(&mut output, 0.0);
    conditions.carry(&input, &mut output);
    assert_eq!(
        output,
        [1.0, 2.0, -3.0, -4.0, -5.0, -6.0, 7.0, 8.0, -9.0, -10.0]
    );
}

#[test]
fn imposing_after_projecting_carries_the_prescription() {
    // Whatever the load held on a constrained row, the right-hand side carries
    // the prescribed value there.
    let prescribed = conditions();
    let conditions = DirichletConditions::<f64, 2>::try_new(&prescribed, 5).expect("valid");
    let mut load = [3.0_f64; 10];
    conditions.project(&mut load, 0.0);
    conditions.impose(&mut load);
    let mut direct = [3.0_f64; 10];
    conditions.impose(&mut direct);
    assert_eq!(load, direct);
    assert_eq!(load[6], 2.5e-4);
    assert_eq!(load[7], -1.1e-4);
}
