use bwq_linter::lexer::Lexer;
use bwq_linter::parser::Parser;
use bwq_linter::validator::Validator;
use bwq_linter::error::LintReport;
use bwq_linter::validation::{NumberFacts, NumberReading};
use bwq_linter::value_texts;

fn numbers(query: &str) -> NumberFacts {
    let texts = value_texts(query);
    let mut values: Vec<f64> =
        texts.iter().filter_map(|t| t.parse::<f64>().ok()).filter(|v| !v.is_nan()).collect();
    values.sort_by(|a, b| a.partial_cmp(b).unwrap());
    values.dedup_by(|a, b| a == b);
    let readings = texts
        .into_iter()
        .map(|t| {
            let reading = match t.parse::<f64>() {
                Ok(v) => NumberReading {
                    is_number: true,
                    within_latitude: (-90.0..=90.0).contains(&v),
                    within_longitude: (-180.0..=180.0).contains(&v),
                    ordered: !v.is_nan(),
                    rank: values.iter().position(|x| *x == v).unwrap_or(0) as u64,
                },
                Err(_) => NumberReading {
                    is_number: false,
                    within_latitude: false,
                    within_longitude: false,
                    ordered: false,
                    rank: 0,
                },
            };
            (t, reading)
        })
        .collect();
    NumberFacts { readings }
}

fn validate(query: &str) -> LintReport {
    let mut lexer = Lexer::new(query);
    let tokens = lexer.tokenize().unwrap();
    let mut parser = Parser::new(tokens).unwrap();
    let result = parser.parse().unwrap();
    let mut validator = Validator::new();
    validator.validate(&result.query, &numbers(query))
}

#[test]
fn test_wildcard_validation() {
    let report = validate("valid*");
    assert!(!report.has_errors());
}

#[test]
fn test_rating_validation() {
    let report = validate("rating:6");
    assert!(report.has_errors());
}

#[test]
fn validator_test_valid_query() {
    let report = validate("apple AND juice");
    assert!(report.is_clean());
}

#[test]
fn validator_pure_negative_and_mixing_codes() {
    let report = validate("NOT bitter");
    assert!(report.errors.iter().any(|e| e.code() == "E013"));
    let report = validate("apple AND banana OR juice");
    assert!(report.errors.iter().any(|e| e.code() == "E012"));
    let report = validate("authorVerified:yes");
    assert_eq!(report.errors.len(), 1);
    assert_eq!(report.errors[0].message(), "authorVerified must be 'true' or 'false'");
    let report = validate("*invalid");
    assert_eq!(report.errors[0].code(), "E004");
    assert_eq!(report.errors[0].message(), "Invalid wildcard placement: wildcards cannot be at the beginning of a word");
}

#[test]
fn validator_follower_counts() {
    let report = validate("authorFollowers:[-100 TO 10000000000]");
    let messages: Vec<String> = report.errors.iter().map(|e| e.message()).collect();
    assert_eq!(
        messages,
        vec![
            "Invalid field range: Follower counts cannot be negative".to_string(),
            "Invalid field range: Follower counts cannot exceed 10 digits".to_string(),
        ]
    );
    let report = validate("authorFollowers:[0 TO -999999999]");
    let messages: Vec<String> = report.errors.iter().map(|e| e.message()).collect();
    assert_eq!(
        messages,
        vec![
            "Invalid field range: Follower counts cannot be negative".to_string(),
            "Invalid field range: Range start value cannot be greater than end value".to_string(),
        ]
    );
    let report = validate("authorFollowers:[0 TO -1000000000]");
    assert_eq!(report.errors.len(), 3);
    let report = validate("authorFollowers:[0 TO 9999999999]");
    assert!(!report.has_errors());
}

#[test]
fn validator_guid_rules() {
    assert!(!validate("guid:123_456").has_errors());
    assert_eq!(validate("guid:_123").errors[0].message(), "guid must contain digits and cannot start or end with underscores");
    assert_eq!(validate("guid:___").errors.len(), 1);
    assert!(validate("guid:12a").errors[0].message().starts_with("guid must contain only digits"));
}

#[test]
fn validator_replacement_and_tilde_warnings() {
    let report = validate("a????b");
    assert_eq!(report.warnings.len(), 1);
    assert_eq!(report.warnings[0].code(), "W002");
    let report = validate("\"one\"~2");
    assert_eq!(report.warnings[0].message(), "Potential typo: Tilde operator on single quoted words has no effect. Use unquoted word or multi-word phrase.");
    let report = validate("\" one  two \"~2");
    assert!(report.warnings.is_empty());
}
