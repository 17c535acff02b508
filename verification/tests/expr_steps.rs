use musubicad::error::CadError;
use musubicad::expr_steps::{evaluation_steps, EvalStep};
use musubicad::param_expr::tokenize;

fn steps(text: &str) -> (Vec<EvalStep>, Result<(), CadError>) {
    let tokens = tokenize(text).expect("tokens");
    evaluation_steps(&tokens, text)
}

#[test]
fn products_bind_tighter_than_sums() {
    let (s, end) = steps("width / 2 + 3 mm");
    assert_eq!(
        s,
        vec![
            EvalStep::Load { name: 0, unit: None },
            EvalStep::Number(2),
            EvalStep::Divide,
            EvalStep::Number(4),
            EvalStep::Add,
        ]
    );
    assert_eq!(end, Ok(()));
}

#[test]
fn negation_and_units_on_names() {
    let (s, end) = steps("-x * depth mm");
    assert_eq!(
        s,
        vec![
            EvalStep::Load { name: 1, unit: None },
            EvalStep::Negate,
            EvalStep::Load { name: 3, unit: Some(4) },
            EvalStep::Multiply,
        ]
    );
    assert_eq!(end, Ok(()));
}

#[test]
fn sums_and_differences_go_left_to_right() {
    let (s, _) = steps("a - b + c");
    assert_eq!(
        s,
        vec![
            EvalStep::Load { name: 0, unit: None },
            EvalStep::Load { name: 2, unit: None },
            EvalStep::Subtract,
            EvalStep::Load { name: 4, unit: None },
            EvalStep::Add,
        ]
    );
}

#[test]
fn syntax_errors_stop_after_the_steps_before_them() {
    let (s, end) = steps("foo +");
    assert_eq!(s, vec![EvalStep::Load { name: 0, unit: None }]);
    assert_eq!(end, Err(CadError::InvalidExpression("empty expression".into())));
    let (s, end) = steps("* 3");
    assert!(s.is_empty());
    assert_eq!(end, Err(CadError::InvalidExpression("invalid factor".into())));
    let (s, end) = steps("1 2");
    assert_eq!(s, vec![EvalStep::Number(0)]);
    assert_eq!(end, Err(CadError::InvalidExpression("1 2".into())));
    let (s, end) = steps("");
    assert!(s.is_empty());
    assert_eq!(end, Err(CadError::InvalidExpression("empty expression".into())));
}

fn depth_after(steps: &[EvalStep]) -> Option<usize> {
    let mut depth = 0usize;
    for step in steps {
        depth = match step {
            EvalStep::Number(_) | EvalStep::Load { .. } => depth + 1,
            EvalStep::Negate => depth.checked_sub(1)? + 1,
            _ => depth.checked_sub(2)? + 1,
        };
    }
    Some(depth)
}

#[test]
fn steps_never_run_short_and_leave_one_value() {
    for text in ["a * -b - c / 2 mm + 4", "-x", "w mm * 2"] {
        let (s, end) = steps(text);
        assert_eq!(end, Ok(()));
        assert_eq!(depth_after(&s), Some(1));
    }
    for text in ["a * ", "1 2 3", "- - ", "a + b *"] {
        let (s, end) = steps(text);
        assert!(end.is_err());
        assert!(depth_after(&s).is_some());
    }
}
