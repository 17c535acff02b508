use musubicad::constraint::{
    add_constraint, Constraint, DistanceTarget, EntityRef, EqualTarget, LineEnd, RectangleEdge,
};
use musubicad::error::CadError;

fn s(value: &str) -> String {
    value.to_string()
}

#[test]
fn entity_refs_and_expression_cover_every_target_shape() {
    let coincident = Constraint::Coincident {
        id: s("con:c"),
        a: EntityRef::Entity(s("ent:p")),
        b: EntityRef::PointOnLine {
            line: s("ent:l"),
            end: LineEnd::End,
        },
    };
    assert_eq!(coincident.entity_refs(), vec![&s("ent:p"), &s("ent:l")]);
    assert!(coincident.expression().is_none());

    let rectangle_width = Constraint::Distance {
        id: s("con:w"),
        target: DistanceTarget::RectangleDimension {
            rectangle: s("ent:rect"),
            edge: RectangleEdge::Width,
        },
        expr: s("width"),
    };
    assert_eq!(rectangle_width.entity_refs(), vec![&s("ent:rect")]);
    assert_eq!(
        rectangle_width.expression().map(String::as_str),
        Some("width")
    );

    let equal = Constraint::Equal {
        id: s("con:eq"),
        a: EqualTarget::LineLength(s("ent:a")),
        b: EqualTarget::Radius(s("ent:b")),
    };
    assert_eq!(equal.entity_refs(), vec![&s("ent:a"), &s("ent:b")]);
}

#[test]
fn ids_and_other_shapes() {
    let parallel = Constraint::Parallel {
        id: s("con:par"),
        line_a: s("ent:l1"),
        line_b: s("ent:l2"),
    };
    assert_eq!(parallel.id(), "con:par");
    assert_eq!(parallel.entity_refs(), vec![&s("ent:l1"), &s("ent:l2")]);
    let radius = Constraint::Radius {
        id: s("con:r"),
        target: s("ent:c"),
        expr: s("10 mm"),
    };
    assert_eq!(radius.expression().map(String::as_str), Some("10 mm"));
    let length = Constraint::Distance {
        id: s("con:len"),
        target: DistanceTarget::PointToPoint {
            a: s("ent:p1"),
            b: s("ent:p2"),
        },
        expr: s("80 mm"),
    };
    assert_eq!(length.entity_refs(), vec![&s("ent:p1"), &s("ent:p2")]);
}

#[test]
fn equal_targets_name_exactly_one_kind() {
    assert_eq!(
        EqualTarget::from_fields(Some(s("ent:line_1")), None).expect("line"),
        EqualTarget::LineLength(s("ent:line_1"))
    );
    assert_eq!(
        EqualTarget::from_fields(None, Some(s("ent:circle_1"))).expect("radius"),
        EqualTarget::Radius(s("ent:circle_1"))
    );
    match EqualTarget::from_fields(Some(s("ent:line_1")), Some(s("ent:circle_1"))) {
        Err(CadError::Validation(message)) => assert!(message.contains("exactly one")),
        other => panic!("unexpected {other:?}"),
    }
    assert!(EqualTarget::from_fields(None, None).is_err());
    assert_eq!(
        EqualTarget::from_legacy(s("ent:legacy_line")),
        EqualTarget::LineLength(s("ent:legacy_line"))
    );
    let radius = EqualTarget::Radius(s("ent:circle_1"));
    let (line, r) = radius.fields();
    assert_eq!(EqualTarget::from_fields(line, r).expect("round trip"), radius);
}

fn coincident(id: &str) -> Constraint {
    Constraint::Coincident {
        id: id.to_string(),
        a: EntityRef::Entity("ent:p1".to_string()),
        b: EntityRef::Entity("ent:p2".to_string()),
    }
}

#[test]
fn duplicate_constraint_id_is_refused() {
    let mut constraints = Vec::new();
    assert_eq!(add_constraint(&mut constraints, coincident("c:1")), Ok(()));
    assert_eq!(add_constraint(&mut constraints, coincident("c:2")), Ok(()));
    assert_eq!(
        add_constraint(&mut constraints, coincident("c:1")),
        Err(CadError::Validation("constraint 'c:1' already exists".to_string()))
    );
    assert_eq!(constraints.len(), 2);
    assert_eq!(constraints[1].id(), "c:2");
}
