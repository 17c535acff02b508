use musubicad::diff::{build_summary, diff_param_graphs, diff_semantic_refs, DiffType, SemanticChange};
use musubicad::param_graph::{ParamGraph, ParameterEntry};
use musubicad::refs::TopoRef;

fn two_parameters() -> ParamGraph {
    let mut graph = ParamGraph::new();
    graph
        .add_parameter(ParameterEntry::new("param:width", "width", "80 mm"))
        .expect("param");
    graph
        .add_parameter(ParameterEntry::new("param:height", "height", "60 mm"))
        .expect("param");
    graph
}

fn changed(id: &str, before: &str, after: &str) -> SemanticChange {
    SemanticChange::ParameterChanged {
        id: id.to_string(),
        before: before.to_string(),
        after: after.to_string(),
    }
}

#[test]
fn diff_param_graphs_detects_expr_change() {
    let before = two_parameters();
    let mut after = two_parameters();
    after.set_expr("param:width", "100 mm").expect("set expr");

    let changes = diff_param_graphs(&before, &after);
    assert_eq!(changes.len(), 1);
    assert_eq!(changes[0], changed("param:width", "80 mm", "100 mm"));
    assert_eq!(build_summary(&changes), "param:width: 80 mm -> 100 mm".to_string());
}

#[test]
fn graph_compared_with_itself_has_no_changes() {
    let graph = two_parameters();
    assert!(diff_param_graphs(&graph, &graph).is_empty());
    assert_eq!(build_summary(&[]), "No changes");
}

#[test]
fn added_and_removed_parameters_have_an_empty_side() {
    let before = two_parameters();
    let mut after = ParamGraph::new();
    after
        .add_parameter(ParameterEntry::new("param:depth", "depth", "5 mm"))
        .expect("param");
    after
        .add_parameter(ParameterEntry::new("param:width", "width", "80 mm"))
        .expect("param");
    let changes = diff_param_graphs(&before, &after);
    assert_eq!(
        changes,
        vec![
            changed("param:height", "60 mm", ""),
            changed("param:depth", "", "5 mm"),
        ]
    );
    assert_eq!(
        build_summary(&changes),
        "param:height: 60 mm -> , param:depth:  -> 5 mm"
    );
}

fn face(id: &str, created_by: &str, role: &str) -> TopoRef {
    TopoRef::face(id.to_string(), created_by.to_string(), role.to_string())
}

fn kernel_face(id: &str, created_by: &str, role: &str, kernel_face_id: u64) -> TopoRef {
    TopoRef::kernel_face(
        id.to_string(),
        created_by.to_string(),
        role.to_string(),
        kernel_face_id,
        [0, 0, 1.0f64.to_bits()],
    )
}

#[test]
fn topo_ref_changes_are_listed_by_increasing_id() {
    let before = vec![
        face("ref:face:b", "feature:pad", "top"),
        kernel_face("ref:face:a", "feature:pad", "side", 4),
    ];
    let after = vec![
        kernel_face("ref:face:a", "feature:pocket", "side", 7),
        face("ref:face:c", "feature:pad", "bottom"),
    ];
    let changes = diff_semantic_refs(&before, &after);
    assert_eq!(
        changes,
        vec![
            SemanticChange::TopoRefModified {
                ref_id: "ref:face:a".into(),
                field: "created_by".into(),
                before: "feature:pad".into(),
                after: "feature:pocket".into(),
            },
            SemanticChange::TopoRefModified {
                ref_id: "ref:face:a".into(),
                field: "kernel_face_id".into(),
                before: "4".into(),
                after: "7".into(),
            },
            SemanticChange::TopoRefRemoved {
                ref_id: "ref:face:b".into(),
            },
            SemanticChange::TopoRefAdded {
                ref_id: "ref:face:c".into(),
                created_by: "feature:pad".into(),
                role: Some("bottom".into()),
            },
        ]
    );
    assert_eq!(
        build_summary(&changes),
        "topo ref ref:face:a.created_by: feature:pad -> feature:pocket, \
         topo ref ref:face:a.kernel_face_id: 4 -> 7, \
         topo ref ref:face:b removed, \
         topo ref ref:face:c added (feature:pad, bottom)"
    );
}

#[test]
fn later_reference_with_the_same_id_wins() {
    let before = vec![
        face("ref:face:a", "feature:pad", "top"),
        face("ref:face:a", "feature:pad", "side"),
    ];
    let after = vec![face("ref:face:a", "feature:pad", "side")];
    assert!(diff_semantic_refs(&before, &after).is_empty());
    let role_changes = diff_semantic_refs(&after, &before[..1]);
    assert_eq!(
        role_changes,
        vec![SemanticChange::TopoRefModified {
            ref_id: "ref:face:a".into(),
            field: "role".into(),
            before: "side".into(),
            after: "top".into(),
        }]
    );
}

#[test]
fn mixed_changes_are_counted() {
    let changes = vec![
        changed("param:width", "1 mm", "2 mm"),
        SemanticChange::MassChanged {
            before: "128 g".into(),
            after: "192 g".into(),
        },
        SemanticChange::FeatureRemoved {
            id: "feature:hole".into(),
        },
    ];
    assert_eq!(build_summary(&changes), "3 change(s)");
    assert_eq!(
        build_summary(&[SemanticChange::TopoRefAdded {
            ref_id: "ref:face:x".into(),
            created_by: "feature:pad".into(),
            role: None,
        }]),
        "topo ref ref:face:x added (feature:pad)"
    );
}

#[test]
fn diff_types_are_distinct() {
    assert_ne!(DiffType::Text, DiffType::Semantic);
    assert_ne!(DiffType::Semantic, DiffType::Geometric);
}
