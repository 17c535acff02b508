use musubicad::overlay::{constraint_mark, ConstraintMark};
use musubicad::constraint::{Constraint, DistanceTarget, EntityRef, EqualTarget, LineEnd, RectangleEdge};
use musubicad::equations::{
    build_constraint, build_equations, sketch_variable_names, sketch_variables, ShapeKind,
    SketchShape, VarTable,
};
use musubicad::error::CadError;
use musubicad::residual::{count_redundant_equations, ConstraintResidual, LengthTerm, VarId};

fn shape(id: &str, kind: ShapeKind) -> SketchShape {
    SketchShape { id: id.into(), kind }
}

fn line(id: &str, start: &str, end: &str) -> SketchShape {
    shape(id, ShapeKind::Line { start: start.into(), end: end.into() })
}

/// p1 -> p2 line l1, p2 -> p4 line l2, circle c1 at p3, rectangle r1.
fn sketch() -> Vec<SketchShape> {
    vec![
        shape("p1", ShapeKind::Point),
        line("l1", "p1", "p2"),
        shape("c1", ShapeKind::Circle { center: "p3".into() }),
        line("l2", "p2", "p4"),
        shape(
            "r1",
            ShapeKind::Rectangle { corners: vec!["p1".into(), "p2".into(), "p3".into(), "p4".into()] },
        ),
    ]
}

fn v(i: u32) -> VarId {
    VarId(i)
}

fn build(c: &Constraint, target: Result<u64, CadError>) -> Result<Vec<ConstraintResidual>, CadError> {
    let shapes = sketch();
    let vars = sketch_variables(&shapes);
    build_constraint(c, &vars, &shapes, &target, &[])
}

#[test]
fn variables_are_registered_once_in_entity_order() {
    let shapes = sketch();
    let names = sketch_variable_names(&shapes);
    assert_eq!(names.len(), 2 + 4 + 3 + 4);
    let vars = sketch_variables(&shapes);
    assert_eq!(vars.len(), 9);
    assert_eq!(vars.get("p1.x"), Some(v(0)));
    assert_eq!(vars.get("p2.y"), Some(v(3)));
    assert_eq!(vars.get("p3.x"), Some(v(4)));
    assert_eq!(vars.get("c1.radius"), Some(v(6)));
    assert_eq!(vars.get("p4.y"), Some(v(8)));
    assert_eq!(vars.get("r1.x"), None);
}

#[test]
fn register_keeps_an_existing_variable() {
    let mut vars = VarTable::new();
    assert_eq!(vars.register("a.x"), v(0));
    assert_eq!(vars.register("a.y"), v(1));
    assert_eq!(vars.register("a.x"), v(0));
    assert_eq!(vars.len(), 2);
}

#[test]
fn horizontal_reads_the_line_end_points() {
    let c = Constraint::Horizontal { id: "con:h".into(), line: "l1".into() };
    assert_eq!(
        build(&c, Err(CadError::InvalidExpression("unused".into()))),
        Ok(vec![ConstraintResidual::Horizontal { x1: v(0), y1: v(1), x2: v(2), y2: v(3) }])
    );
}

#[test]
fn coincident_point_on_line_end() {
    let c = Constraint::Coincident {
        id: "con:c".into(),
        a: EntityRef::PointOnLine { line: "l2".into(), end: LineEnd::End },
        b: EntityRef::Entity("p3".into()),
    };
    assert_eq!(
        build(&c, Ok(0)),
        Ok(vec![
            ConstraintResidual::CoincidentX { a: v(7), b: v(4) },
            ConstraintResidual::CoincidentY { a: v(8), b: v(5) },
        ])
    );
}

#[test]
fn distance_takes_the_target_bits() {
    let bits = 0.04f64.to_bits();
    let c = Constraint::Distance {
        id: "con:d".into(),
        target: DistanceTarget::PointToPoint { a: "p1".into(), b: "p3".into() },
        expr: "40 mm".into(),
    };
    assert_eq!(
        build(&c, Ok(bits)),
        Ok(vec![ConstraintResidual::Distance { x1: v(0), y1: v(1), x2: v(4), y2: v(5), target_bits: bits }])
    );
    assert_eq!(
        build(&c, Err(CadError::InvalidExpression("40 parsecs".into()))),
        Err(CadError::InvalidExpression("40 parsecs".into()))
    );
}

#[test]
fn unknown_point_and_line_are_not_found() {
    let c = Constraint::Distance {
        id: "con:d".into(),
        target: DistanceTarget::PointToPoint { a: "p9".into(), b: "p1".into() },
        expr: "1".into(),
    };
    assert_eq!(build(&c, Ok(0)), Err(CadError::NotFound("point x 'p9'".into())));
    let c = Constraint::Vertical { id: "con:v".into(), line: "l9".into() };
    assert_eq!(build(&c, Ok(0)), Err(CadError::NotFound("line 'l9'".into())));
}

#[test]
fn rectangle_dimension_measures_from_the_first_corner() {
    let bits = 0.06f64.to_bits();
    let width = Constraint::Distance {
        id: "con:w".into(),
        target: DistanceTarget::RectangleDimension { rectangle: "r1".into(), edge: RectangleEdge::Width },
        expr: "60 mm".into(),
    };
    assert_eq!(
        build(&width, Ok(bits)),
        Ok(vec![ConstraintResidual::Distance { x1: v(0), y1: v(1), x2: v(2), y2: v(3), target_bits: bits }])
    );
    let height = Constraint::Distance {
        id: "con:h".into(),
        target: DistanceTarget::RectangleDimension { rectangle: "r1".into(), edge: RectangleEdge::Height },
        expr: "60 mm".into(),
    };
    assert_eq!(
        build(&height, Ok(bits)),
        Ok(vec![ConstraintResidual::Distance { x1: v(0), y1: v(1), x2: v(7), y2: v(8), target_bits: bits }])
    );
    let missing = Constraint::Distance {
        id: "con:m".into(),
        target: DistanceTarget::RectangleDimension { rectangle: "r9".into(), edge: RectangleEdge::Width },
        expr: "60 mm".into(),
    };
    assert_eq!(build(&missing, Ok(bits)), Err(CadError::NotFound("rectangle 'r9'".into())));
    let not_a_rectangle = Constraint::Distance {
        id: "con:n".into(),
        target: DistanceTarget::RectangleDimension { rectangle: "p1".into(), edge: RectangleEdge::Width },
        expr: "60 mm".into(),
    };
    assert_eq!(build(&not_a_rectangle, Ok(bits)), Ok(vec![]));
}

#[test]
fn radius_needs_a_radius_variable() {
    let c = Constraint::Radius { id: "con:r".into(), target: "c1".into(), expr: "5 mm".into() };
    assert_eq!(build(&c, Ok(7)), Ok(vec![ConstraintResidual::Radius { radius: v(6), target_bits: 7 }]));
    let c = Constraint::Diameter { id: "con:r".into(), target: "l1".into(), expr: "5 mm".into() };
    assert_eq!(build(&c, Ok(7)), Err(CadError::NotFound("radius for 'l1'".into())));
}

#[test]
fn equal_targets_are_checked_against_their_entity() {
    let mixed = Constraint::Equal {
        id: "con:e".into(),
        a: EqualTarget::LineLength("l1".into()),
        b: EqualTarget::Radius("c1".into()),
    };
    assert_eq!(
        build(&mixed, Ok(0)),
        Ok(vec![ConstraintResidual::EqualLength {
            a: LengthTerm::Segment { x1: v(0), y1: v(1), x2: v(2), y2: v(3) },
            b: LengthTerm::Scalar { value: v(6) },
        }])
    );
    let circle_as_line = Constraint::Equal {
        id: "con:e".into(),
        a: EqualTarget::LineLength("c1".into()),
        b: EqualTarget::Radius("c1".into()),
    };
    assert_eq!(
        build(&circle_as_line, Ok(0)),
        Err(CadError::Validation("equal line-length target 'c1' must reference a line".into()))
    );
    let line_as_radius = Constraint::Equal {
        id: "con:e".into(),
        a: EqualTarget::Radius("l1".into()),
        b: EqualTarget::Radius("c1".into()),
    };
    assert_eq!(
        build(&line_as_radius, Ok(0)),
        Err(CadError::Validation("equal radius target 'l1' must reference a circle or arc".into()))
    );
    let unknown = Constraint::Equal {
        id: "con:e".into(),
        a: EqualTarget::Radius("zz".into()),
        b: EqualTarget::Radius("c1".into()),
    };
    assert_eq!(build(&unknown, Ok(0)), Err(CadError::NotFound("equal radius target 'zz'".into())));
}

#[test]
fn direction_checks_come_after_both_lines() {
    let shapes = sketch();
    let vars = sketch_variables(&shapes);
    let c = Constraint::Parallel { id: "con:p".into(), line_a: "l1".into(), line_b: "l2".into() };
    assert_eq!(
        build_constraint(&c, &vars, &shapes, &Ok(0), &[]),
        Ok(vec![ConstraintResidual::Parallel {
            ax1: v(0),
            ay1: v(1),
            ax2: v(2),
            ay2: v(3),
            bx1: v(2),
            by1: v(3),
            bx2: v(7),
            by2: v(8),
        }])
    );
    let degenerate = vec![("l2".to_string(), CadError::Validation("l2 is zero-length".into()))];
    assert_eq!(
        build_constraint(&c, &vars, &shapes, &Ok(0), &degenerate),
        Err(CadError::Validation("l2 is zero-length".into()))
    );
    let c = Constraint::Perpendicular { id: "con:q".into(), line_a: "l9".into(), line_b: "l2".into() };
    assert_eq!(
        build_constraint(&c, &vars, &shapes, &Ok(0), &degenerate),
        Err(CadError::NotFound("line 'l9'".into()))
    );
}

#[test]
fn angle_midpoint_symmetric_and_tangent() {
    let angle = Constraint::Angle {
        id: "con:a".into(),
        line_a: "l1".into(),
        line_b: "l2".into(),
        expr: "30 deg".into(),
    };
    assert_eq!(
        build(&angle, Ok(9)),
        Ok(vec![ConstraintResidual::Angle {
            ax1: v(0),
            ay1: v(1),
            ax2: v(2),
            ay2: v(3),
            bx1: v(2),
            by1: v(3),
            bx2: v(7),
            by2: v(8),
            target_rad_bits: 9,
        }])
    );
    let mid = Constraint::Midpoint { id: "con:m".into(), point: "p3".into(), line: "l1".into() };
    assert_eq!(
        build(&mid, Ok(0)),
        Ok(vec![
            ConstraintResidual::Midpoint { point: v(4), a: v(0), b: v(2) },
            ConstraintResidual::Midpoint { point: v(5), a: v(1), b: v(3) },
        ])
    );
    let sym = Constraint::Symmetric { id: "con:s".into(), a: "p1".into(), b: "p4".into(), line: "l1".into() };
    let (px, py, qx, qy, lx1, ly1, lx2, ly2) = (v(0), v(1), v(7), v(8), v(0), v(1), v(2), v(3));
    assert_eq!(
        build(&sym, Ok(0)),
        Ok(vec![
            ConstraintResidual::SymmetricMidpointOnLine { px, py, qx, qy, lx1, ly1, lx2, ly2 },
            ConstraintResidual::SymmetricPerpendicular { px, py, qx, qy, lx1, ly1, lx2, ly2 },
        ])
    );
    let tangent = Constraint::Tangent { id: "con:t".into(), line: "l2".into(), curve: "c1".into() };
    assert_eq!(
        build(&tangent, Ok(0)),
        Ok(vec![ConstraintResidual::TangentLineCircle {
            cx: v(4),
            cy: v(5),
            radius: v(6),
            lx1: v(2),
            ly1: v(3),
            lx2: v(7),
            ly2: v(8),
        }])
    );
    let not_a_curve = Constraint::Tangent { id: "con:t".into(), line: "l2".into(), curve: "l1".into() };
    assert_eq!(
        build(&not_a_curve, Ok(0)),
        Err(CadError::Validation("tangent target 'l1' must be a circle or arc".into()))
    );
}

#[test]
fn equations_follow_constraint_order_and_stop_at_the_first_error() {
    let shapes = sketch();
    let vars = sketch_variables(&shapes);
    let h = Constraint::Horizontal { id: "con:h".into(), line: "l1".into() };
    let r = Constraint::Radius { id: "con:r".into(), target: "c1".into(), expr: "5 mm".into() };
    let bad = Constraint::Vertical { id: "con:v".into(), line: "l9".into() };
    let eqs = build_equations(&[h.clone(), r.clone()], &vars, &shapes, &[Ok(0), Ok(5)], &[]);
    assert_eq!(
        eqs,
        Ok(vec![
            ConstraintResidual::Horizontal { x1: v(0), y1: v(1), x2: v(2), y2: v(3) },
            ConstraintResidual::Radius { radius: v(6), target_bits: 5 },
        ])
    );
    let eqs = build_equations(&[h, bad, r], &vars, &shapes, &[Ok(0), Ok(0), Ok(5)], &[]);
    assert_eq!(eqs, Err(CadError::NotFound("line 'l9'".into())));
}

#[test]
fn arc_brings_its_radius_and_end_points() {
    let shapes = vec![shape(
        "a1",
        ShapeKind::Arc { center: "c".into(), start_point: Some("s".into()), end_point: None },
    )];
    let vars = sketch_variables(&shapes);
    assert_eq!(vars.len(), 5);
    assert_eq!(vars.get("a1.radius"), Some(v(2)));
    assert_eq!(vars.get("s.y"), Some(v(4)));
}

#[test]
fn detects_duplicate_equations() {
    let eqs = vec![
        ConstraintResidual::FixedX { x: VarId(0), value_bits: 0.0f64.to_bits() },
        ConstraintResidual::FixedX { x: VarId(0), value_bits: 0.0f64.to_bits() },
    ];
    assert_eq!(count_redundant_equations(&eqs), 1);
}

#[test]
fn repeated_equations_are_counted_once_each() {
    let a = ConstraintResidual::CoincidentX { a: v(0), b: v(1) };
    let b = ConstraintResidual::CoincidentX { a: v(1), b: v(0) };
    assert_eq!(count_redundant_equations(&[a, b, a, a, b]), 3);
    assert_eq!(count_redundant_equations(&[]), 0);
}

#[test]
fn constraints_get_their_overlay_marks() {
    let h = Constraint::Horizontal { id: "c".into(), line: "l".into() };
    assert_eq!(constraint_mark(&h), ConstraintMark::Glyph("H"));
    let t = Constraint::Tangent { id: "c".into(), line: "l".into(), curve: "k".into() };
    assert_eq!(constraint_mark(&t), ConstraintMark::Glyph("T"));
    let d = Constraint::Diameter { id: "c".into(), target: "k".into(), expr: "5 mm".into() };
    assert_eq!(constraint_mark(&d), ConstraintMark::Dimension { prefix: "D" });
    let p = Constraint::Perpendicular { id: "c".into(), line_a: "a".into(), line_b: "b".into() };
    assert_eq!(constraint_mark(&p), ConstraintMark::PerpendicularSymbol);
}

fn message(e: &CadError) -> &str {
    match e {
        CadError::Validation(m) | CadError::NotFound(m) | CadError::InvalidExpression(m) => m,
    }
}

#[test]
fn equal_target_kind_validation_is_explicit() {
    let shapes = vec![shape("ent:point", ShapeKind::Point)];
    let vars = sketch_variables(&shapes);
    let invalid_line = Constraint::Equal {
        id: "con:invalid_line_target".into(),
        a: EqualTarget::LineLength("ent:point".into()),
        b: EqualTarget::LineLength("ent:point".into()),
    };
    let error = build_equations(&[invalid_line], &vars, &shapes, &[Ok(0)], &[]).expect_err("validation");
    assert!(message(&error).contains("equal line-length target 'ent:point' must reference a line"));
    let missing_radius = Constraint::Equal {
        id: "con:missing_radius_target".into(),
        a: EqualTarget::Radius("ent:missing".into()),
        b: EqualTarget::Radius("ent:missing".into()),
    };
    let error = build_equations(&[missing_radius], &vars, &shapes, &[Ok(0)], &[]).expect_err("not found");
    assert!(message(&error).contains("equal radius target 'ent:missing'"));
}

#[test]
fn built_equations_read_only_registered_variables() {
    let shapes = sketch();
    let vars = sketch_variables(&shapes);
    let constraints = vec![
        Constraint::Horizontal { id: "h".into(), line: "l1".into() },
        Constraint::Tangent { id: "t".into(), line: "l2".into(), curve: "c1".into() },
        Constraint::Symmetric { id: "s".into(), a: "p1".into(), b: "p4".into(), line: "l1".into() },
        Constraint::Equal { id: "e".into(), a: EqualTarget::LineLength("l2".into()), b: EqualTarget::Radius("c1".into()) },
    ];
    let eqs = build_equations(&constraints, &vars, &shapes, &[Ok(0), Ok(0), Ok(0), Ok(0)], &[]).expect("equations");
    assert_eq!(eqs.len(), 5);
    for eq in &eqs {
        for v in eq.involved_vars() {
            assert!((v.0 as usize) < vars.len());
        }
    }
}

#[test]
fn registration_names_each_variable_once() {
    let shapes = sketch();
    let names = sketch_variable_names(&shapes);
    let vars = sketch_variables(&shapes);
    for name in &names {
        assert!(vars.get(name).is_some());
    }
    let mut seen = std::collections::HashSet::new();
    for i in 0..vars.len() {
        let id = VarId(i as u32);
        let name = names.iter().find(|n| vars.get(n) == Some(id)).expect("registered name");
        assert!(seen.insert(name.clone()));
    }
}
