use musubicad::error::CadError;
use musubicad::param_graph::{ParamGraph, ParameterEntry};

#[test]
fn duplicate_parameter_is_rejected() {
    let mut graph = ParamGraph::new();
    graph
        .add_parameter(ParameterEntry::new("param:a", "a", "1 mm"))
        .expect("first");
    assert!(matches!(
        graph.add_parameter(ParameterEntry::new("param:a", "a", "2 mm")),
        Err(CadError::Validation(_))
    ));
    assert_eq!(graph.parameter_ids(), vec!["param:a"]);
}

#[test]
fn dependencies_order_evaluation() {
    let mut graph = ParamGraph::new();
    graph
        .add_parameter(ParameterEntry::new("param:half", "half", "width / 2"))
        .expect("half");
    graph
        .add_parameter(ParameterEntry::new("param:width", "width", "80 mm"))
        .expect("width");
    graph.add_dependency("param:width", "param:half").expect("dep");
    assert_eq!(
        graph.evaluation_order().expect("order"),
        vec!["param:width", "param:half"]
    );
}

#[test]
fn cycle_and_unknown_ids_are_errors() {
    let mut graph = ParamGraph::new();
    graph
        .add_parameter(ParameterEntry::new("param:a", "a", "b"))
        .expect("a");
    graph
        .add_parameter(ParameterEntry::new("param:b", "b", "a"))
        .expect("b");
    graph.add_dependency("param:a", "param:b").expect("dep");
    graph.add_dependency("param:b", "param:a").expect("dep");
    assert!(matches!(graph.evaluation_order(), Err(CadError::Validation(_))));
    assert!(matches!(
        graph.add_dependency("param:a", "param:missing"),
        Err(CadError::NotFound(_))
    ));
    assert!(matches!(
        graph.set_expr("param:missing", "1 mm"),
        Err(CadError::NotFound(_))
    ));
}
