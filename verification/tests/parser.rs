use bwq_linter::ast::{BooleanOperator, Expression, FieldType, ProximityOperator, Term};
use bwq_linter::lexer::Lexer;
use bwq_linter::parser::{ParseResult, Parser};

fn parse(query: &str) -> Result<ParseResult, bwq_linter::error::LintError> {
    let mut lexer = Lexer::new(query);
    let tokens = lexer.tokenize().unwrap();
    let mut parser = Parser::new(tokens)?;
    parser.parse()
}

#[test]
fn test_basic_parsing() {
    let result = parse("apple AND juice").unwrap();
    match result.query.expression {
        Expression::BooleanOp { operator, .. } => {
            assert_eq!(operator, BooleanOperator::And);
        },
        _ => panic!("Expected BooleanOp"),
    }
}

#[test]
fn test_quoted_phrase() {
    let result = parse("\"apple juice\"").unwrap();
    match result.query.expression {
        Expression::Term { term: Term::Phrase { value }, .. } => {
            assert_eq!(value, "apple juice");
        },
        _ => panic!("Expected Term with Phrase"),
    }
}

#[test]
fn test_field_operation() {
    let result = parse("title:\"apple juice\"").unwrap();
    match result.query.expression {
        Expression::Field { field, .. } => {
            assert_eq!(field, FieldType::Title);
        },
        _ => panic!("Expected Field operation"),
    }
}

#[test]
fn test_implicit_and() {
    let result = parse("apple banana").unwrap();
    match result.query.expression {
        Expression::BooleanOp { operator, .. } => {
            assert_eq!(operator, BooleanOperator::And);
        },
        _ => panic!("Expected BooleanOp with implicit AND"),
    }
    assert!(!result.warnings.is_empty());
}

#[test]
fn parser_implicit_and_warning_points_after_left_operand() {
    let result = parse("apple this").unwrap();
    assert_eq!(result.warnings.len(), 1);
    let span = result.warnings[0].span();
    assert_eq!((span.start.column, span.end.column), (6, 7));
    assert_eq!((span.start.offset, span.end.offset), (5, 6));
    assert_eq!(
        result.warnings[0].message(),
        "Potential typo: Two or more terms without an operator between them are implicitly ANDed. Consider using explicit 'AND' operator for clarity"
    );
}

#[test]
fn parser_leading_not_has_no_right_operand() {
    let result = parse("NOT bitter").unwrap();
    match result.query.expression {
        Expression::BooleanOp { operator: BooleanOperator::Not, left, right: None, span } => {
            assert!(matches!(*left, Expression::Term { term: Term::Word { ref value }, .. } if value == "bitter"));
            assert_eq!((span.start.offset, span.end.offset), (0, 10));
        },
        _ => panic!("Expected a leading NOT"),
    }
}

#[test]
fn parser_proximity_forms() {
    let result = parse("\"apple juice\"~5").unwrap();
    match result.query.expression {
        Expression::Proximity { operator: ProximityOperator::Proximity { distance: Some(5) }, terms, span } => {
            assert_eq!(terms.len(), 1);
            assert_eq!((span.start.offset, span.end.offset), (0, 14));
        },
        _ => panic!("Expected a tilde proximity"),
    }
    let result = parse("apple NEAR/3f juice").unwrap();
    match result.query.expression {
        Expression::Proximity { operator: ProximityOperator::NearForward { distance: 3 }, terms, .. } => {
            assert_eq!(terms.len(), 2);
        },
        _ => panic!("Expected NEAR/3f"),
    }
}

#[test]
fn parser_tilde_errors() {
    for query in ["apple ~5", "apple~ 5", "apple~", "\"apple juice\"~", "apple ~ juice", "(a OR b) AND c~x"] {
        let e = parse(query).unwrap_err();
        assert_eq!(e.code(), "E002", "{query}");
    }
    let e = parse("apple ~5").unwrap_err();
    assert_eq!(e.message(), "The ~ operator must be immediately attached to the preceding term (e.g., apple~5, not apple ~5).");
    let e = parse("a NEAR/2 b~3").unwrap_err();
    assert_eq!(e.code(), "E007");
}

#[test]
fn parser_unknown_field_is_a_word() {
    let result = parse("languag:e").unwrap();
    assert!(matches!(result.query.expression, Expression::Term { term: Term::Word { ref value }, .. } if value == "languag:e"));
    let result = parse("foo:\"a b\"").unwrap();
    assert!(matches!(result.query.expression, Expression::Term { term: Term::Word { ref value }, .. } if value == "foo:\"a b\""));
    let result = parse("foo:(a)").unwrap();
    assert!(matches!(result.query.expression, Expression::Term { term: Term::Word { ref value }, .. } if value == "foo:unknown"));
}

#[test]
fn parser_range_takes_field() {
    let result = parse("RATING:[2 TO 4]").unwrap();
    match result.query.expression {
        Expression::Field { field: FieldType::Rating, value, .. } => {
            assert!(matches!(*value, Expression::Range { field: Some(FieldType::Rating), ref start, ref end, .. } if start == "2" && end == "4"));
        },
        _ => panic!("Expected a rating range"),
    }
}

#[test]
fn parser_expected_token_errors() {
    let e = parse("(apple").unwrap_err();
    assert_eq!(e.code(), "E008");
    assert_eq!(e.message(), "Expected ')' but found 'end of file'");
    let e = parse("rating:[1 to 5]").unwrap_err();
    assert_eq!(e.message(), "Expected 'TO' but found 'word 'to''");
    let e = parse("{AND}").unwrap_err();
    assert_eq!(e.message(), "Expected 'word' but found 'AND'");
    let e = parse("apple AND").unwrap_err();
    assert_eq!(e.code(), "E007");
    assert_eq!(e.message(), "Unexpected token 'end of file'");
    let e = parse("apple )").unwrap_err();
    assert_eq!(e.message(), "Unexpected token ')'");
}

#[test]
fn parser_unclosed_comment() {
    let mut lexer = Lexer::new("apple <<<never closed");
    let tokens = lexer.tokenize().unwrap();
    let e = Parser::new(tokens).err().unwrap();
    assert_eq!(e.code(), "E003");
    assert_eq!(e.message(), "Please add a >>> mark to close this commented text.");
    assert_eq!(e.span().start.offset, 6);
}
