use spdx_expression::inner_variant::{SimpleExpression, WithExpression};
use spdx_expression::lexer::{
    document_ref, idstring, keyword, license_idstring, license_ref, operator,
    simple_license_expression, skip_spaces, spaces1, tag,
};
use spdx_expression::parser::{expr, factor, term, with_expression, Expression};
use spdx_expression::text::{chars_of, id_char, space, string_of};

fn chars(text: &str) -> Vec<char> {
    text.chars().collect()
}

fn text(input: &[char], from: usize, to: usize) -> String {
    input[from..to].iter().collect()
}

fn simple(identifier: &str, document_ref: Option<&str>, license_ref: bool) -> Expression {
    Expression::Simple(SimpleExpression::new(
        identifier.to_string(),
        document_ref.map(str::to_string),
        license_ref,
    ))
}

#[test]
fn idstring_simple() {
    let input = chars("MIT");
    let end = idstring(&input, 0).unwrap();
    assert_eq!(text(&input, 0, end), "MIT");
}

#[test]
fn idstring_with_numbers() {
    let input = chars("GPL-2.0");
    let end = idstring(&input, 0).unwrap();
    assert_eq!(text(&input, 0, end), "GPL-2.0");
}

#[test]
fn idstring_with_plus() {
    let input = chars("GPL-2.0+");
    let end = idstring(&input, 0).unwrap();
    assert_eq!(text(&input, 0, end), "GPL-2.0");
}

#[test]
fn document_ref_simple() {
    let input = chars("DocumentRef-SPDX-DOC:");
    let (result, _) = document_ref(&input, 0).unwrap();
    assert_eq!(result, "SPDX-DOC");
}

#[test]
fn license_ref_simple() {
    let input = chars("LicenseRef-Unknown");
    let (result, _) = license_ref(&input, 0).unwrap();
    assert_eq!(result, (None, "Unknown".to_string()));
}

#[test]
fn license_ref_with_document_ref() {
    let input = chars("DocumentRef-Spdx-Doc:LicenseRef-Unknown");
    let (result, _) = license_ref(&input, 0).unwrap();
    assert_eq!(result, (Some("Spdx-Doc".to_string()), "Unknown".to_string()));
}

#[test]
fn simple_expression_simple() {
    let input = chars("MIT");
    let (result, _) = factor(&input, 0).unwrap();
    assert_eq!(result, simple("MIT", None, false));
}

#[test]
fn simple_expression_with_licenseref() {
    let input = chars("LicenseRef-Unknown-license");
    let (result, _) = factor(&input, 0).unwrap();
    assert_eq!(result, simple("Unknown-license", None, true));
}

#[test]
fn simple_expression_with_plus() {
    let input = chars("GPL-2.0+");
    let (result, _) = factor(&input, 0).unwrap();
    assert_eq!(result, simple("GPL-2.0+", None, false));
}

#[test]
fn simple_expression_with_document_ref() {
    let input = chars("DocumentRef-SPDX-DOC:LicenseRef-New-license-1.0");
    let (result, _) = factor(&input, 0).unwrap();
    assert_eq!(result, simple("New-license-1.0", Some("SPDX-DOC"), true));
}

#[test]
fn license_idstring_without_plus() {
    let input = chars("GPL-2.0");
    let end = license_idstring(&input, 0).unwrap();
    assert_eq!(text(&input, 0, end), "GPL-2.0");
}

#[test]
fn license_idstring_with_plus() {
    let input = chars("GPL-2.0+");
    let end = license_idstring(&input, 0).unwrap();
    assert_eq!(text(&input, 0, end), "GPL-2.0+");
}

#[test]
fn with_expression_simple() {
    let input = chars("GPL-2.0 WITH Autoconf-exception-2.0");
    let (result, _) = with_expression(&input, 0).unwrap();
    assert_eq!(
        result,
        Expression::With(WithExpression::new(
            SimpleExpression::new("GPL-2.0".to_string(), None, false),
            "Autoconf-exception-2.0".to_string()
        ))
    );
}

#[test]
fn and_expression_simple() {
    let input = chars("GPL-2.0 AND MIT");
    let (result, _) = term(&input, 0).unwrap();
    assert_eq!(
        result,
        Expression::And(
            Box::new(simple("GPL-2.0", None, false)),
            Box::new(simple("MIT", None, false)),
        )
    );
}

#[test]
fn and_expression_nested_with() {
    let input = chars("GPL-2.0 AND LGPL-2.1 WITH GCC-exception-2.0");
    let (result, _) = term(&input, 0).unwrap();
    assert_eq!(
        result,
        Expression::And(
            Box::new(simple("GPL-2.0", None, false)),
            Box::new(Expression::With(WithExpression::new(
                SimpleExpression::new("LGPL-2.1".to_string(), None, false),
                "GCC-exception-2.0".to_string()
            )))
        )
    );
}

#[test]
fn or_expression_simple() {
    let input = chars("GPL-2.0 OR MIT");
    let (result, _) = expr(&input, 0).unwrap();
    assert_eq!(
        result,
        Expression::Or(
            Box::new(simple("GPL-2.0", None, false)),
            Box::new(simple("MIT", None, false))
        )
    );
}

#[test]
fn or_expression_nested_and() {
    let input = chars("GPL-2.0 OR MIT AND LGPL-2.1");
    let (result, _) = expr(&input, 0).unwrap();
    assert_eq!(
        result,
        Expression::Or(
            Box::new(simple("GPL-2.0", None, false)),
            Box::new(Expression::And(
                Box::new(simple("MIT", None, false)),
                Box::new(simple("LGPL-2.1", None, false))
            ))
        )
    );
}

#[test]
fn recognizers_read_from_the_position() {
    let input = chars("x MIT+ y");
    assert_eq!(idstring(&input, 2), Some(5));
    assert_eq!(license_idstring(&input, 2), Some(6));
    assert_eq!(idstring(&input, 1), None);
    assert_eq!(idstring(&input, 8), None);
    assert_eq!(idstring(&input, 100), None);
    assert_eq!(skip_spaces(&input, 1), 2);
    assert_eq!(skip_spaces(&input, 2), 2);
    assert_eq!(skip_spaces(&input, 100), 100);
    assert_eq!(spaces1(&input, 6), Some(7));
    assert_eq!(spaces1(&input, 5), None);
}

#[test]
fn idstring_takes_ascii_letters_digits_hyphen_and_dot_only() {
    for rejected in ["", "+", "_a", "/", ":", "(", " a", "\u{e9}", "\u{212a}"] {
        assert_eq!(idstring(&chars(rejected), 0), None, "{:?}", rejected);
    }
    let input = chars("aZ09-._x");
    assert_eq!(idstring(&input, 0), Some(6));
    let input = chars("caf\u{e9}");
    assert_eq!(idstring(&input, 0), Some(3));
}

#[test]
fn whitespace_is_space_tab_carriage_return_and_line_feed() {
    let input = chars(" \t\r\n\u{c}x");
    assert_eq!(skip_spaces(&input, 0), 4);
    let input = chars("\u{a0}x");
    assert_eq!(skip_spaces(&input, 0), 0);
}

#[test]
fn tag_matches_exactly() {
    let input = chars("xLicenseRef-a");
    assert_eq!(tag(&input, 1, "LicenseRef-"), Some(12));
    assert_eq!(tag(&input, 0, "LicenseRef-"), None);
    assert_eq!(tag(&input, 3, "LicenseRef-"), None);
    assert_eq!(tag(&chars("licenseref-a"), 0, "LicenseRef-"), None);
    assert_eq!(tag(&chars("License"), 0, "LicenseRef-"), None);
    assert_eq!(tag(&input, 13, ""), Some(13));
    assert_eq!(tag(&input, 14, ""), None);
}

#[test]
fn keyword_ignores_case() {
    for word in ["AND", "and", "And", "aNd", "anD"] {
        assert_eq!(keyword(&chars(word), 0, "AND", "and"), Some(3), "{:?}", word);
    }
    for word in ["AN", "ANT", "OR", " AND", "\u{c5}ND"] {
        assert_eq!(keyword(&chars(word), 0, "AND", "and"), None, "{:?}", word);
    }
    assert_eq!(keyword(&chars("xAND"), 1, "AND", "and"), Some(4));
    assert_eq!(keyword(&chars("AND"), 7, "AND", "and"), None);
}

#[test]
fn operator_needs_whitespace_on_both_sides() {
    assert_eq!(operator(&chars(" OR b"), 0, "OR", "or"), Some(4));
    assert_eq!(operator(&chars("\t\nor \r b"), 0, "OR", "or"), Some(7));
    assert_eq!(operator(&chars("OR b"), 0, "OR", "or"), None);
    assert_eq!(operator(&chars(" ORb"), 0, "OR", "or"), None);
    assert_eq!(operator(&chars(" OR"), 0, "OR", "or"), None);
    assert_eq!(operator(&chars(" AND b"), 0, "OR", "or"), None);
}

#[test]
fn document_ref_needs_its_colon() {
    assert_eq!(document_ref(&chars("DocumentRef-a"), 0), None);
    assert_eq!(document_ref(&chars("DocumentRef-:"), 0), None);
    assert_eq!(document_ref(&chars("DocumentRef-a+:"), 0), None);
    assert_eq!(document_ref(&chars("documentref-a:"), 0), None);
    assert_eq!(document_ref(&chars("DocumentRef-a:b"), 0), Some(("a".to_string(), 14)));
}

#[test]
fn license_ref_needs_an_identifier() {
    assert_eq!(license_ref(&chars("LicenseRef-"), 0), None);
    assert_eq!(license_ref(&chars("LicenseRef-+"), 0), None);
    assert_eq!(license_ref(&chars("DocumentRef-a:b"), 0), None);
    assert_eq!(license_ref(&chars("DocumentRef-a:LicenseRef-"), 0), None);
    assert_eq!(
        license_ref(&chars("LicenseRef-a+"), 0),
        Some(((None, "a".to_string()), 12))
    );
}

#[test]
fn simple_license_expression_tries_the_reference_first() {
    let (license, end) = simple_license_expression(&chars("LicenseRef-a+"), 0).unwrap();
    assert_eq!(license, SimpleExpression::new("a".to_string(), None, true));
    assert_eq!(end, 12);
    let (license, end) = simple_license_expression(&chars("LicenseRef-+"), 0).unwrap();
    assert_eq!(license, SimpleExpression::new("LicenseRef-+".to_string(), None, false));
    assert_eq!(end, 12);
    let (license, end) = simple_license_expression(&chars("DocumentRef-a"), 0).unwrap();
    assert_eq!(license, SimpleExpression::new("DocumentRef-a".to_string(), None, false));
    assert_eq!(end, 13);
    let (license, end) = simple_license_expression(&chars("DocumentRef-a:b"), 0).unwrap();
    assert_eq!(license, SimpleExpression::new("DocumentRef-a".to_string(), None, false));
    assert_eq!(end, 13);
    assert_eq!(simple_license_expression(&chars("+"), 0), None);
}

#[test]
fn character_classes_are_ascii() {
    for code in 0..=0x2100u32 {
        if let Some(c) = char::from_u32(code) {
            assert_eq!(
                id_char(c),
                c.is_ascii_alphanumeric() || c == '-' || c == '.',
                "{:?}",
                c
            );
            assert_eq!(space(c), matches!(c, ' ' | '\t' | '\r' | '\n'), "{:?}", c);
        }
    }
}

#[test]
fn strings_and_characters_convert_both_ways() {
    for text in ["", "MIT", "caf\u{e9} \u{1f600}\u{0}"] {
        let characters = chars_of(text);
        assert_eq!(characters, chars(text));
        assert_eq!(string_of(&characters, 0, characters.len()), text);
    }
    let characters = chars_of("GPL-2.0+");
    assert_eq!(string_of(&characters, 4, 7), "2.0");
    assert_eq!(string_of(&characters, 3, 3), "");
}
