use spdx_expression::inner_variant::{SimpleExpression, WithExpression};
use spdx_expression::parser::{
    expr, factor, fold_exprs, parens, spdx_expression, term, Expression, Oper,
};

fn chars(text: &str) -> Vec<char> {
    text.chars().collect()
}

fn id(identifier: &str) -> Expression {
    Expression::Simple(SimpleExpression::new(identifier.to_string(), None, false))
}

fn with(identifier: &str, exception: &str) -> Expression {
    Expression::With(WithExpression::new(
        SimpleExpression::new(identifier.to_string(), None, false),
        exception.to_string(),
    ))
}

fn and(left: Expression, right: Expression) -> Expression {
    Expression::And(Box::new(left), Box::new(right))
}

fn or(left: Expression, right: Expression) -> Expression {
    Expression::Or(Box::new(left), Box::new(right))
}

fn parenthesized(inner: Expression) -> Expression {
    Expression::Parens(Box::new(inner))
}

#[test]
fn and_is_left_associative() {
    assert_eq!(
        Expression::parse("A AND B AND C").unwrap(),
        and(and(id("A"), id("B")), id("C"))
    );
    assert_eq!(
        Expression::parse("A AND B AND C AND D").unwrap(),
        and(and(and(id("A"), id("B")), id("C")), id("D"))
    );
}

#[test]
fn or_is_left_associative() {
    assert_eq!(
        Expression::parse("A OR B OR C").unwrap(),
        or(or(id("A"), id("B")), id("C"))
    );
}

#[test]
fn precedence_of_the_operators() {
    assert_eq!(
        Expression::parse("A AND B OR C").unwrap(),
        or(and(id("A"), id("B")), id("C"))
    );
    assert_eq!(
        Expression::parse("A OR B AND C").unwrap(),
        or(id("A"), and(id("B"), id("C")))
    );
    assert_eq!(
        Expression::parse("A AND B WITH E").unwrap(),
        and(id("A"), with("B", "E"))
    );
    assert_eq!(
        Expression::parse("A OR B AND C OR D AND E AND F").unwrap(),
        or(
            or(id("A"), and(id("B"), id("C"))),
            and(and(id("D"), id("E")), id("F"))
        )
    );
}

#[test]
fn reference_syntax() {
    assert_eq!(
        Expression::parse("DocumentRef-Doc:LicenseRef-Foo").unwrap(),
        Expression::Simple(SimpleExpression::new(
            "Foo".to_string(),
            Some("Doc".to_string()),
            true
        ))
    );
    assert_eq!(Expression::parse("GPL-2.0+").unwrap(), id("GPL-2.0+"));
    assert_eq!(
        Expression::parse("DocumentRef-Doc:LicenseRef-Foo WITH e").unwrap(),
        Expression::With(WithExpression::new(
            SimpleExpression::new("Foo".to_string(), Some("Doc".to_string()), true),
            "e".to_string()
        ))
    );
}

#[test]
fn rejections() {
    for input in [
        "(A AND B) WITH E",
        "A WITH E+",
        "((",
        "/",
        "",
        " ",
        "A B",
        "A AND",
        "AND A",
        "A AND OR B",
        "A WITH",
        "A WITH (B)",
        "A WITH LicenseRef-x+",
        "A WITH B WITH C",
        "A++",
        "LicenseRef-a+",
        "DocumentRef-a:b",
        "DocumentRef-a:LicenseRef-",
        "(A",
        "A)",
        "()",
        "(A)(B)",
        "A, B",
        "A AND B;",
        "caf\u{e9}",
        "A\u{a0}AND\u{a0}B",
        "A\u{c}AND B",
    ] {
        assert!(Expression::parse(input).is_err(), "{:?}", input);
    }
}

#[test]
fn operators_need_whitespace_on_both_sides() {
    for input in ["(A)AND(B)", "(A) AND(B)", "(A)AND (B)", "A ANDB", "(A)OR B", "A WITH(B)"] {
        assert!(Expression::parse(input).is_err(), "{:?}", input);
    }
    assert_eq!(Expression::parse("AANDB").unwrap(), id("AANDB"));
    assert_eq!(
        Expression::parse("(A) AND (B)").unwrap(),
        and(parenthesized(id("A")), parenthesized(id("B")))
    );
}

#[test]
fn whitespace_is_free_around_and_inside() {
    let expected = and(id("A"), parenthesized(or(id("B"), id("C"))));
    for input in [
        "A AND (B OR C)",
        "  A AND (B OR C)  ",
        "A\tAND\n(\r\nB  OR  C\t)",
        "\n A   AND   ( B OR C ) \n",
    ] {
        assert_eq!(Expression::parse(input).unwrap(), expected, "{:?}", input);
    }
    assert_eq!(
        Expression::parse("A \t WITH \n E").unwrap(),
        with("A", "E")
    );
}

#[test]
fn keywords_in_any_case() {
    let expected = or(and(id("a"), with("b", "c")), id("d"));
    for input in [
        "a AND b WITH c OR d",
        "a and b with c or d",
        "a And b wItH c oR d",
    ] {
        let parsed = Expression::parse(input).unwrap();
        assert_eq!(parsed, expected, "{:?}", input);
        assert_eq!(parsed.to_string(), "a AND b WITH c OR d");
    }
}

#[test]
fn identifiers_keep_their_case() {
    assert_eq!(Expression::parse("mit").unwrap(), id("mit"));
    assert_ne!(Expression::parse("mit").unwrap(), id("MIT"));
    assert_eq!(
        Expression::parse("licenseref-a").unwrap(),
        id("licenseref-a")
    );
}

#[test]
fn keywords_can_be_identifiers() {
    assert_eq!(Expression::parse("AND").unwrap(), id("AND"));
    assert_eq!(Expression::parse("A and and").unwrap(), and(id("A"), id("and")));
    assert_eq!(
        Expression::parse("with WITH with").unwrap(),
        with("with", "with")
    );
    assert_eq!(
        Expression::parse("or OR or").unwrap(),
        or(id("or"), id("or"))
    );
}

#[test]
fn parentheses_are_kept() {
    assert_eq!(Expression::parse("(A)").unwrap(), parenthesized(id("A")));
    assert_eq!(
        Expression::parse("((A))").unwrap(),
        parenthesized(parenthesized(id("A")))
    );
    assert_eq!(
        Expression::parse("(MIT AND (ISC))").unwrap(),
        parenthesized(and(id("MIT"), parenthesized(id("ISC"))))
    );
    assert_eq!(
        Expression::parse("A AND (B AND C)").unwrap(),
        and(id("A"), parenthesized(and(id("B"), id("C"))))
    );
    assert_eq!(Expression::parse("( ( A ) )").unwrap().to_string(), "((A))");
}

#[test]
fn text_that_looks_like_a_broken_reference_is_an_id() {
    assert_eq!(Expression::parse("DocumentRef-a").unwrap(), id("DocumentRef-a"));
    assert_eq!(Expression::parse("LicenseRef-").unwrap(), id("LicenseRef-"));
    assert_eq!(Expression::parse("LicenseRef-+").unwrap(), id("LicenseRef-+"));
    assert_eq!(Expression::parse("DocumentRef-+").unwrap(), id("DocumentRef-+"));
}

#[test]
fn round_trip() {
    for (input, canonical) in [
        ("MIT", "MIT"),
        ("mit and isc", "mit AND isc"),
        ("  A   or\tB  ", "A OR B"),
        ("( A )", "(A)"),
        ("GPL-2.0+ with Classpath-exception-2.0", "GPL-2.0+ WITH Classpath-exception-2.0"),
        (
            "DocumentRef-d:LicenseRef-l Or LicenseRef-m",
            "DocumentRef-d:LicenseRef-l OR LicenseRef-m",
        ),
        (
            "license1+ and ((license2 with exception1) OR license3+ AND license4 WITH exception2)",
            "license1+ AND ((license2 WITH exception1) OR license3+ AND license4 WITH exception2)",
        ),
    ] {
        let parsed = Expression::parse(input).unwrap();
        assert_eq!(parsed.to_string(), canonical, "{:?}", input);
        assert_eq!(Expression::parse(canonical).unwrap(), parsed, "{:?}", input);
    }
}

#[test]
fn grammar_levels_stop_where_they_end() {
    let input = chars("A AND B OR C");
    assert_eq!(factor(&input, 0), Some((id("A"), 1)));
    assert_eq!(term(&input, 0), Some((and(id("A"), id("B")), 7)));
    assert_eq!(
        expr(&input, 0),
        Some((or(and(id("A"), id("B")), id("C")), 12))
    );
    assert_eq!(term(&input, 6), Some((id("B"), 7)));
    assert_eq!(factor(&input, 1), None);
    let input = chars("( A ) x");
    assert_eq!(parens(&input, 0), Some((parenthesized(id("A")), 5)));
    assert_eq!(parens(&input, 2), None);
    assert_eq!(factor(&input, 0), Some((parenthesized(id("A")), 5)));
}

#[test]
fn spdx_expression_skips_whitespace_and_leaves_the_rest() {
    let input = chars("  A OR B  ) x");
    assert_eq!(
        spdx_expression(&input, 0),
        Some((or(id("A"), id("B")), 10))
    );
    assert_eq!(spdx_expression(&chars("  "), 0), None);
    assert_eq!(spdx_expression(&chars("A"), 5), None);
}

#[test]
fn fold_exprs_nests_to_the_left() {
    assert_eq!(fold_exprs(id("A"), vec![]), id("A"));
    assert_eq!(
        fold_exprs(
            id("A"),
            vec![(Oper::And, id("B")), (Oper::Or, id("C")), (Oper::And, id("D"))]
        ),
        and(or(and(id("A"), id("B")), id("C")), id("D"))
    );
}

#[test]
fn deep_nesting_is_parsed() {
    let depth = 200;
    let input = format!("{}A{}", "(".repeat(depth), ")".repeat(depth));
    let parsed = Expression::parse(&input).unwrap();
    assert_eq!(parsed.to_string(), input);
    let input = vec!["A"; 500].join(" AND ");
    let parsed = Expression::parse(&input).unwrap();
    assert_eq!(parsed.to_string(), input);
}

#[test]
fn nesting_follows_the_operators_and_the_parentheses() {
    let input = chars("GPL-2.0 AND MIT AND LGPL-2.1");
    assert_eq!(
        term(&input, 0),
        Some((and(and(id("GPL-2.0"), id("MIT")), id("LGPL-2.1")), 28))
    );
    let input = chars("GPL-2.0 AND MIT OR LGPL-2.1");
    assert_eq!(term(&input, 0), Some((and(id("GPL-2.0"), id("MIT")), 15)));
    assert_eq!(
        expr(&input, 0),
        Some((or(and(id("GPL-2.0"), id("MIT")), id("LGPL-2.1")), 27))
    );
    let input = chars("GPL-2.0 OR MIT OR LGPL-2.1");
    assert_eq!(
        expr(&input, 0),
        Some((or(or(id("GPL-2.0"), id("MIT")), id("LGPL-2.1")), 26))
    );
    let input = chars("(GPL-2.0 AND LGPL-2.1) AND (MIT OR ISC)");
    assert_eq!(
        term(&input, 0),
        Some((
            and(
                parenthesized(and(id("GPL-2.0"), id("LGPL-2.1"))),
                parenthesized(or(id("MIT"), id("ISC")))
            ),
            39
        ))
    );
    let input = chars("(GPL-2.0 AND LGPL-2.1) OR (MIT OR ISC)");
    assert_eq!(
        expr(&input, 0),
        Some((
            or(
                parenthesized(and(id("GPL-2.0"), id("LGPL-2.1"))),
                parenthesized(or(id("MIT"), id("ISC")))
            ),
            38
        ))
    );
    let input = chars("(MIT)");
    assert_eq!(parens(&input, 0), Some((parenthesized(id("MIT")), 5)));
}
