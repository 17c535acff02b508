use musubicad::fixtures::{
    bearing_carrier_parameters, bracket_parameters, revolve_parameters,
    robot_arm_base_parameters, robot_arm_forearm_parameters, robot_arm_gripper_parameters,
    robot_arm_upper_arm_parameters, robot_joint_housing_parameters,
};
use musubicad::param_graph::ParamGraph;

fn expr(graph: &ParamGraph, id: &str) -> String {
    graph.get(id).expect("parameter").expr.clone()
}

#[test]
fn bracket_parameters_are_listed_in_order() {
    let graph = bracket_parameters();
    assert_eq!(
        graph.parameter_ids(),
        vec![
            "param:width",
            "param:height",
            "param:thickness",
            "param:hole_diameter",
            "param:fillet_radius",
            "param:chamfer_distance",
            "param:hole_pitch",
            "param:boss_height",
        ]
    );
    assert_eq!(expr(&graph, "param:chamfer_distance"), "0.5 mm");
}

#[test]
fn fixture_sets_have_their_sizes_and_values() {
    let carrier = bearing_carrier_parameters();
    assert_eq!(carrier.parameter_ids().len(), 7);
    assert_eq!(expr(&carrier, "param:boss_height"), "14 mm");
    assert_eq!(expr(&carrier, "param:bolt_hole_diameter"), "5.5 mm");

    let housing = robot_joint_housing_parameters();
    assert_eq!(housing.parameter_ids().len(), 19);
    assert_eq!(expr(&housing, "param:upper_hub_height"), "32 mm");
    assert_eq!(expr(&housing, "param:mounting_hole_diameter"), "9 mm");
    assert_eq!(housing.evaluation_order().expect("order"), housing.parameter_ids());

    assert_eq!(robot_arm_base_parameters().parameter_ids().len(), 6);
    assert_eq!(robot_arm_upper_arm_parameters().parameter_ids().len(), 7);
    assert_eq!(robot_arm_forearm_parameters().parameter_ids().len(), 7);
    let gripper = robot_arm_gripper_parameters();
    assert_eq!(gripper.parameter_ids().len(), 7);
    assert_eq!(expr(&gripper, "param:finger_spacing"), "16 mm");
}

#[test]
fn revolve_parameters_take_the_angle_expression() {
    let graph = revolve_parameters("90 deg");
    assert_eq!(graph.parameter_ids().len(), 4);
    assert_eq!(expr(&graph, "param:revolve_angle"), "90 deg");
    assert_eq!(
        graph.get("param:revolve_angle").expect("angle").name,
        "revolve_angle_rad"
    );
}
