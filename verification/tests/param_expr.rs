use musubicad::param_expr::{is_angle_parameter, parameter_names_in_expr, tokenize, Token};

#[test]
fn parameter_names_in_expr_extracts_identifiers() {
    let names = parameter_names_in_expr("hole_diameter / 2");
    assert_eq!(names, vec!["hole_diameter".to_string()]);
}

#[test]
fn names_are_listed_once_in_order_of_first_use() {
    let names = parameter_names_in_expr("b * a + b - c_2 / a");
    assert_eq!(names, vec!["b".to_string(), "a".to_string(), "c_2".to_string()]);
    assert!(parameter_names_in_expr("width ? 2").is_empty());
    assert!(parameter_names_in_expr("1.2.3").is_empty());
}

#[test]
fn numbers_keep_literal_and_unit() {
    let tokens = tokenize("80 mm + .5in*x").expect("tokens");
    assert_eq!(
        tokens,
        vec![
            Token::Number { literal: "80".into(), unit: Some("mm".into()) },
            Token::Plus,
            Token::Number { literal: ".5".into(), unit: Some("in".into()) },
            Token::Star,
            Token::Ident("x".into()),
        ]
    );
}

#[test]
fn tokenize_rejects_bad_numbers_and_characters() {
    assert!(tokenize(".").is_err());
    assert!(tokenize("1..2").is_err());
    assert!(tokenize("(1)").is_err());
    assert!(tokenize("5.").is_ok());
    assert_eq!(tokenize("   ").unwrap(), vec![]);
}

#[test]
fn unicode_whitespace_separates_tokens() {
    let tokens = tokenize("a\u{3000}b").expect("tokens");
    assert_eq!(tokens, vec![Token::Ident("a".into()), Token::Ident("b".into())]);
}

#[test]
fn whitespace_test_agrees_with_std() {
    for code in 0u32..0x3100 {
        if let Some(c) = char::from_u32(code) {
            let text: String = ['x', c, 'y'].iter().collect();
            let split = tokenize(&text).map(|t| t.len()).unwrap_or(0);
            if c.is_whitespace() {
                assert_eq!(split, 2, "code {code:#x}");
            }
        }
    }
}

#[test]
fn angle_parameters_are_recognised_by_name() {
    assert!(is_angle_parameter("revolve_angle_rad"));
    assert!(is_angle_parameter("tilt_deg"));
    assert!(is_angle_parameter("draft_angle"));
    assert!(!is_angle_parameter("width"));
    assert!(!is_angle_parameter("rad"));
}
