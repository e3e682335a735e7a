use spdx_expression::inner_variant::{SimpleExpression, WithExpression};
use spdx_expression::parser::Expression;

#[test]
fn test_parse_a_license_id_correctly() {
    let parsed = Expression::parse("spdx.license-id").unwrap();
    assert_eq!(
        parsed,
        Expression::Simple(SimpleExpression::new(
            "spdx.license-id".to_string(),
            None,
            false
        ))
    );
}

#[test]
fn test_parse_a_license_id_starting_with_a_digit_correctly() {
    let parsed = Expression::parse("0license").unwrap();
    assert_eq!(
        parsed,
        Expression::Simple(SimpleExpression::new("0license".to_string(), None, false))
    );
}

#[test]
fn test_parse_a_license_id_with_any_later_version_correctly() {
    let parsed = Expression::parse("license+").unwrap();
    assert_eq!(
        parsed,
        Expression::Simple(SimpleExpression::new("license+".to_string(), None, false))
    );
}

#[test]
fn test_parse_a_document_ref_correctly() {
    let parsed = Expression::parse("DocumentRef-document:LicenseRef-license").unwrap();
    assert_eq!(
        parsed,
        Expression::Simple(SimpleExpression::new(
            "license".to_string(),
            Some("document".to_string()),
            true
        ))
    );
}

#[test]
fn test_parse_a_license_ref_correctly() {
    let parsed = Expression::parse("LicenseRef-license").unwrap();
    assert_eq!(
        parsed,
        Expression::Simple(SimpleExpression::new("license".to_string(), None, true))
    );
}

#[test]
fn test_parse_a_with_expression_correctly() {
    let parsed = Expression::parse("license WITH exception").unwrap();
    assert_eq!(
        parsed,
        Expression::With(WithExpression::new(
            SimpleExpression::new("license".to_string(), None, false),
            "exception".to_string()
        ))
    );
}

#[test]
fn test_parse_a_complex_expression_correctly() {
    let parsed = Expression::parse(
        "license1+ and ((license2 with exception1) OR license3+ AND license4 WITH exception2)",
    )
    .unwrap();

    assert_eq!(
        parsed,
        Expression::And(
            Box::new(Expression::Simple(SimpleExpression::new(
                "license1+".to_string(),
                None,
                false
            ))),
            Box::new(Expression::Parens(Box::new(Expression::Or(
                Box::new(Expression::Parens(Box::new(Expression::With(
                    WithExpression::new(
                        SimpleExpression::new("license2".to_string(), None, false),
                        "exception1".to_string()
                    )
                )))),
                Box::new(Expression::And(
                    Box::new(Expression::Simple(SimpleExpression::new(
                        "license3+".to_string(),
                        None,
                        false
                    ))),
                    Box::new(Expression::With(WithExpression::new(
                        SimpleExpression::new("license4".to_string(), None, false),
                        "exception2".to_string()
                    )))
                )),
            ))))
        )
    );
}

#[test]
fn test_bind_plus_stronger_than_with() {
    let parsed = Expression::parse("license+ WITH exception").unwrap();
    assert_eq!(
        parsed,
        Expression::With(WithExpression::new(
            SimpleExpression::new("license+".to_string(), None, false),
            "exception".to_string()
        ))
    );
}

#[test]
fn test_bind_with_stronger_than_and() {
    let parsed = Expression::parse("license1 AND license2 WITH exception").unwrap();
    assert_eq!(
        parsed,
        Expression::And(
            Box::new(Expression::Simple(SimpleExpression::new(
                "license1".to_string(),
                None,
                false
            ))),
            Box::new(Expression::With(WithExpression::new(
                SimpleExpression::new("license2".to_string(), None, false),
                "exception".to_string()
            )))
        )
    );
}

#[test]
fn test_bind_and_stronger_than_or() {
    let parsed = Expression::parse("license1 OR license2 AND license3").unwrap();
    assert_eq!(
        parsed,
        Expression::Or(
            Box::new(Expression::Simple(SimpleExpression::new(
                "license1".to_string(),
                None,
                false
            ))),
            Box::new(Expression::And(
                Box::new(Expression::Simple(SimpleExpression::new(
                    "license2".to_string(),
                    None,
                    false
                ))),
                Box::new(Expression::Simple(SimpleExpression::new(
                    "license3".to_string(),
                    None,
                    false
                )))
            ))
        )
    );
}

#[test]
fn test_the_and_operator_left_associative() {
    let parsed = Expression::parse("license1 AND license2 AND license3").unwrap();
    assert_eq!(
        parsed,
        Expression::And(
            Box::new(Expression::And(
                Box::new(Expression::Simple(SimpleExpression::new(
                    "license1".to_string(),
                    None,
                    false
                ))),
                Box::new(Expression::Simple(SimpleExpression::new(
                    "license2".to_string(),
                    None,
                    false
                )))
            )),
            Box::new(Expression::Simple(SimpleExpression::new(
                "license3".to_string(),
                None,
                false
            ))),
        )
    );
}

#[test]
fn test_the_or_operator_left_associative() {
    let parsed = Expression::parse("license1 OR license2 OR license3").unwrap();
    assert_eq!(
        parsed,
        Expression::Or(
            Box::new(Expression::Or(
                Box::new(Expression::Simple(SimpleExpression::new(
                    "license1".to_string(),
                    None,
                    false
                ))),
                Box::new(Expression::Simple(SimpleExpression::new(
                    "license2".to_string(),
                    None,
                    false
                )))
            )),
            Box::new(Expression::Simple(SimpleExpression::new(
                "license3".to_string(),
                None,
                false
            ))),
        )
    );
}

#[test]
fn test_parentheses_for_binding_strength_of_operators() {
    let parsed = Expression::parse("(license1 OR license2) AND license3").unwrap();
    assert_eq!(
        parsed,
        Expression::And(
            Box::new(Expression::Parens(Box::new(Expression::Or(
                Box::new(Expression::Simple(SimpleExpression::new(
                    "license1".to_string(),
                    None,
                    false
                ))),
                Box::new(Expression::Simple(SimpleExpression::new(
                    "license2".to_string(),
                    None,
                    false
                )))
            )))),
            Box::new(Expression::Simple(SimpleExpression::new(
                "license3".to_string(),
                None,
                false
            ))),
        )
    );
}

#[test]
fn test_fail_if_plus_is_used_in_an_exception_expression() {
    let parsed = Expression::parse("license WITH exception+");
    assert!(parsed.is_err());
}

#[test]
fn test_fail_if_a_compound_expressions_is_used_before_with() {
    let parsed = Expression::parse("(license1 AND license2) WITH exception");
    assert!(parsed.is_err());
}

#[test]
fn test_fail_on_an_invalid_symbol() {
    let parsed = Expression::parse("/");
    assert!(parsed.is_err());
}

#[test]
fn test_fail_on_a_syntax_error() {
    let parsed = Expression::parse("((");
    assert!(parsed.is_err());
}
