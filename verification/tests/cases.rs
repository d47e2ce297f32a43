use bwq_linter::error::LintReport;
use bwq_linter::validation::{NumberFacts, NumberReading};
use bwq_linter::{value_texts, BrandwatchLinter};

fn numbers(query: &str) -> NumberFacts {
    let texts = value_texts(query);
    let mut values: Vec<f64> =
        texts.iter().filter_map(|t| t.parse::<f64>().ok()).filter(|v| !v.is_nan()).collect();
    values.sort_by(|a, b| a.partial_cmp(b).unwrap());
    values.dedup_by(|a, b| a == b);
    let readings = texts
        .into_iter()
        .map(|t| {
            let reading = match t.parse::<f64>() {
                Ok(v) => NumberReading {
                    is_number: true,
                    within_latitude: (-90.0..=90.0).contains(&v),
                    within_longitude: (-180.0..=180.0).contains(&v),
                    ordered: !v.is_nan(),
                    rank: values.iter().position(|x| *x == v).unwrap_or(0) as u64,
                },
                Err(_) => NumberReading {
                    is_number: false,
                    within_latitude: false,
                    within_longitude: false,
                    ordered: false,
                    rank: 0,
                },
            };
            (t, reading)
        })
        .collect();
    NumberFacts { readings }
}

/// What a query should give.
enum TestExpectation {
    Valid,
    ValidNoWarnings,
    ValidWithWarning(&'static str),
    ErrorCode(&'static str),
    ErrorCodeWithWarning(&'static str, &'static str),
}

fn report(query: &str) -> LintReport {
    match BrandwatchLinter::new().lint(query, &numbers(query)) {
        Ok(report) => report,
        Err(error) => panic!("Expected query to parse: {query} - {}", error.message()),
    }
}

fn assert_valid(query: &str) -> LintReport {
    let r = report(query);
    assert!(!r.has_errors(), "Expected query to be valid: {query} - {:?}", r.errors);
    r
}

fn assert_error_code(query: &str, code: &str) {
    match BrandwatchLinter::new().lint(query, &numbers(query)) {
        Ok(r) => {
            assert!(r.has_errors(), "Expected query to have errors: {query}");
            assert!(
                r.errors.iter().any(|e| e.code() == code),
                "Expected error {code} for {query}, got {:?}",
                r.errors.iter().map(|e| e.code()).collect::<Vec<_>>()
            );
        },
        Err(error) => assert_eq!(error.code(), code, "query: {query}"),
    }
}

fn assert_warning_code(query: &str, code: &str) {
    let r = report(query);
    assert!(
        r.warnings.iter().any(|w| w.code() == code),
        "Expected warning {code} for {query}, got {:?}",
        r.warnings.iter().map(|w| w.code()).collect::<Vec<_>>()
    );
}

fn check(query: &str, expected: TestExpectation) {
    match expected {
        TestExpectation::Valid => {
            assert_valid(query);
        },
        TestExpectation::ValidNoWarnings => {
            let r = assert_valid(query);
            assert!(r.warnings.is_empty(), "Expected no warnings for {query}, got {:?}", r.warnings);
        },
        TestExpectation::ValidWithWarning(code) => {
            let r = assert_valid(query);
            assert!(r.has_warnings(), "Expected warnings for {query}");
            assert_warning_code(query, code);
        },
        TestExpectation::ErrorCode(code) => assert_error_code(query, code),
        TestExpectation::ErrorCodeWithWarning(code, warning) => {
            assert_error_code(query, code);
            assert_warning_code(query, warning);
        },
    }
}

#[test]
fn basic_boolean_syntax_cases() {
    // basic AND operation
    check("apple AND juice", TestExpectation::ValidNoWarnings);
    // basic OR operation
    check("apple OR orange", TestExpectation::ValidNoWarnings);
    // basic NOT operation
    check("apple NOT bitter NOT sour", TestExpectation::ValidNoWarnings);
    // parenthesized boolean operations
    check("(apple OR orange) AND juice", TestExpectation::ValidNoWarnings);
    // pure negative query error
    check("NOT bitter", TestExpectation::ErrorCode("E013"));
    // leading NOT with AND
    check("NOT term1 AND term2", TestExpectation::ValidNoWarnings);
    // double NOT pure negative query error
    check("NOT term1 NOT term2", TestExpectation::ErrorCode("E013"));
}

#[test]
fn quoted_phrase_syntax_cases() {
    // basic quoted phrase
    check("\"apple juice\"", TestExpectation::ValidNoWarnings);
    // quoted phrase with AND
    check("\"organic fruit\" AND healthy", TestExpectation::ValidNoWarnings);
    // quoted phrase with OR
    check("\"multi word phrase\" OR simple", TestExpectation::ValidNoWarnings);
}

#[test]
fn wildcard_syntax_cases() {
    // asterisk wildcard at end
    check("appl*", TestExpectation::ValidNoWarnings);
    // asterisk wildcard in middle
    check("tes*t", TestExpectation::ValidNoWarnings);
    // question mark wildcard in middle
    check("customi?e", TestExpectation::ValidNoWarnings);
    // two character wildcard no warning
    check("ab*", TestExpectation::ValidNoWarnings);
    // wildcard after hashtag prefix performance warning
    check("#*test", TestExpectation::ValidWithWarning("W002"));
    // wildcard after @ prefix performance warning
    check("@*test", TestExpectation::ValidWithWarning("W002"));
    // invalid wildcard at beginning
    check("*invalid", TestExpectation::ErrorCode("E004"));
    // short wildcard matches too many unique terms
    check("a*", TestExpectation::ErrorCode("E004"));
    // wildcard in middle with characters after
    check("t*est", TestExpectation::ValidNoWarnings);
}

#[test]
fn near_proximity_operator_syntax_cases() {
    // basic NEAR operator
    check("apple NEAR/3 juice", TestExpectation::ValidNoWarnings);
    // NEAR forward
    check("apple NEAR/2f juice*", TestExpectation::ValidNoWarnings);
    // NEAR with grouped terms
    check("((apple OR orange) NEAR/5 (smartphone OR phone))", TestExpectation::ValidNoWarnings);
    // NEAR with boolean AND
    check("(apple NEAR/5 juice) AND orange", TestExpectation::ValidNoWarnings);
    // field with NEAR operation
    check("continent:europe AND (sustainability NEAR/10 climate)", TestExpectation::ValidNoWarnings);
}

#[test]
fn tilde_proximity_syntax_cases() {
    // basic quoted phrase with tilde
    check("\"apple juice\"~5", TestExpectation::ValidNoWarnings);
    // simple group with tilde
    check("(brand OR company)~3", TestExpectation::ValidNoWarnings);
    // nested boolean group with tilde
    check("((tech OR technology) AND innovation)~7", TestExpectation::ValidNoWarnings);
    // quoted tilde with boolean AND
    check("\"apple juice\"~5 AND test", TestExpectation::ValidNoWarnings);
    // grouped terms with tilde and AND
    check("(apple AND juice)~2 AND test", TestExpectation::ValidNoWarnings);
    // single term with tilde warning
    check("apple~5", TestExpectation::ValidWithWarning("W001"));
    // single quoted word with tilde warning
    check("\"apple\"~5", TestExpectation::ValidWithWarning("W001"));
    // tilde with implicit AND warning
    check("apple~5 juice", TestExpectation::ValidWithWarning("W001"));
    // tilde without distance number on phrase
    check("\"apple juice\"~", TestExpectation::ErrorCode("E002"));
    // tilde without distance number on term
    check("apple~", TestExpectation::ErrorCode("E002"));
    // tilde with spaces
    check("apple ~ juice", TestExpectation::ErrorCode("E002"));
    // space between tilde and number
    check("apple~ 5", TestExpectation::ErrorCode("E002"));
    // space before tilde
    check("apple ~5", TestExpectation::ErrorCode("E002"));
    // invalid characters after number
    check("apple~5t", TestExpectation::ErrorCode("E001"));
}

#[test]
fn special_character_syntax_cases() {
    // hashtag syntax
    check("#MondayMotivation", TestExpectation::ValidNoWarnings);
    // mention syntax
    check("@brandwatch", TestExpectation::ValidNoWarnings);
    // hashtag and mention combined
    check("#hashtag AND @mention", TestExpectation::ValidNoWarnings);
    // semicolons in term
    check("test;test;test", TestExpectation::ValidNoWarnings);
}

#[test]
fn invalid_query_patterns_cases() {
    // missing right operand
    check("apple AND", TestExpectation::ErrorCode("E007"));
    // missing left operand
    check("OR juice", TestExpectation::ErrorCode("E007"));
    // empty parentheses
    check("apple AND ()", TestExpectation::ErrorCode("E007"));
    // pure negative query
    check("NOT bitter", TestExpectation::ErrorCode("E013"));
}

#[test]
fn unicode_and_special_characters_cases() {
    // hindi text
    check("दुष्प्रचार OR \"नकली खबर\" OR नकलीखबर ", TestExpectation::ValidNoWarnings);
    // hindi with english
    check("नमस्कार AND goodbye", TestExpectation::ValidNoWarnings);
    // flag emoji
    check("🇪🇺 AND europe", TestExpectation::ValidNoWarnings);
    // currency symbols
    check("€100 OR $50", TestExpectation::ValidNoWarnings);
    // mixed unicode
    check("café AND नमस्ते", TestExpectation::ValidNoWarnings);
    // names with apostrophes
    check("O'Reilly OR McDonald's", TestExpectation::ValidNoWarnings);
    // emoji with implicit AND
    check("🎉 celebration", TestExpectation::ValidWithWarning("W001"));
}

#[test]
fn url_like_strings_cases() {
    // single slash after colon
    check("https:www.youtube.com/", TestExpectation::ValidNoWarnings);
    // slash in middle
    check("https:w/ww.youtube.com/", TestExpectation::ValidNoWarnings);
    // double slash missing one
    check("https:/www.youtube.com/", TestExpectation::ValidNoWarnings);
    // full URL format
    check("https://www.youtube.com/", TestExpectation::ValidNoWarnings);
    // site operator with path
    check("site:reddit.com/r/programming", TestExpectation::ValidNoWarnings);
    // url with path
    check("url:example.com/path/to/page", TestExpectation::ValidNoWarnings);
}

#[test]
fn rating_field_validation_cases() {
    // valid rating 3
    check("rating:3", TestExpectation::ValidNoWarnings);
    // valid rating 0
    check("rating:0", TestExpectation::ValidNoWarnings);
    // valid rating range
    check("rating:[2 TO 4]", TestExpectation::ValidNoWarnings);
    // rating too high
    check("rating:6", TestExpectation::ErrorCode("E009"));
    // rating range with negative
    check("rating:[-1 TO 3]", TestExpectation::ErrorCode("E009"));
    // invalid rating with literal letters
    check("rating:[x TO y]", TestExpectation::ErrorCode("E009"));
    // invalid rating with lowercase to
    check("rating:[1 to 5]", TestExpectation::ErrorCode("E008"));
}

#[test]
fn boolean_field_validation_cases() {
    // valid boolean true
    check("authorVerified:true", TestExpectation::ValidNoWarnings);
    // valid boolean false
    check("authorVerified:false", TestExpectation::ValidNoWarnings);
    // invalid boolean yes
    check("authorVerified:yes", TestExpectation::ErrorCode("E009"));
    // invalid boolean number
    check("authorVerified:1", TestExpectation::ErrorCode("E009"));
}

#[test]
fn language_field_validation_cases() {
    // valid 2-char language code
    check("language:en", TestExpectation::ValidNoWarnings);
    // valid french language code
    check("language:fr", TestExpectation::ValidNoWarnings);
    // uppercase language code warning
    check("language:ENG", TestExpectation::ValidWithWarning("W001"));
    // full language name warning
    check("language:english", TestExpectation::ValidWithWarning("W001"));
    // invalid field operator is valid
    check("languag:e", TestExpectation::ValidNoWarnings);
}

#[test]
fn engagement_type_field_validation_cases() {
    // valid engagement comment
    check("engagementType:COMMENT", TestExpectation::ValidNoWarnings);
    // valid engagement reply
    check("engagementType:REPLY", TestExpectation::ValidNoWarnings);
    // valid engagement retweet
    check("engagementType:RETWEET", TestExpectation::ValidNoWarnings);
    // valid engagement quote
    check("engagementType:QUOTE", TestExpectation::ValidNoWarnings);
    // invalid engagement like
    check("engagementType:LIKE", TestExpectation::ErrorCode("E009"));
}

#[test]
fn verified_type_field_validation_cases() {
    // valid verified type blue
    check("authorVerifiedType:blue", TestExpectation::ValidNoWarnings);
    // valid verified type business
    check("authorVerifiedType:business", TestExpectation::ValidNoWarnings);
    // valid verified type government
    check("authorVerifiedType:government", TestExpectation::ValidNoWarnings);
    // invalid verified type gold
    check("authorVerifiedType:gold", TestExpectation::ErrorCode("E009"));
}

#[test]
fn minute_of_day_field_validation_cases() {
    // valid minute of day full range
    check("minuteOfDay:[0 TO 1439]", TestExpectation::ValidNoWarnings);
    // valid minute of day noon to 1pm
    check("minuteOfDay:[720 TO 780]", TestExpectation::ValidNoWarnings);
    // minute of day with negative
    check("minuteOfDay:[-1 TO 100]", TestExpectation::ErrorCode("E009"));
    // minute of day over max
    check("minuteOfDay:[0 TO 1440]", TestExpectation::ErrorCode("E009"));
}

#[test]
fn location_field_validation_cases() {
    // valid country code
    check("country:gbr", TestExpectation::ValidNoWarnings);
    // valid region code
    check("region:usa.fl", TestExpectation::ValidNoWarnings);
    // valid city code
    check("city:\"deu.berlin.berlin\"", TestExpectation::ValidNoWarnings);
}

#[test]
fn performance_edge_cases_cases() {
    // NEAR with large distance should not generate warnings
    check("apple NEAR/150 juice", TestExpectation::ValidNoWarnings);
    // multiple wildcards in OR
    check("apple* OR juice*", TestExpectation::ValidNoWarnings);
    // single character should not generate warnings
    check("a", TestExpectation::ValidNoWarnings);
    // mixing pure numbers and numeric wildcards
    check("42 OR 24*", TestExpectation::ValidNoWarnings);
}

#[test]
fn empty_and_whitespace_queries_cases() {
    // empty query
    check("", TestExpectation::ErrorCode("E007"));
    // whitespace only query
    check("   ", TestExpectation::ErrorCode("E007"));
    // newline and tab only
    check("\n\t", TestExpectation::ErrorCode("E007"));
}

#[test]
fn operator_precedence_validation_cases() {
    // mixed OR AND without parentheses
    check("apple OR banana AND juice", TestExpectation::ErrorCode("E012"));
    // mixed AND OR without parentheses
    check("apple AND banana OR juice AND smoothie", TestExpectation::ErrorCode("E012"));
    // mixed NOT AND OR without parentheses
    check("apple NOT bitter AND sweet OR sour", TestExpectation::ErrorCode("E012"));
    // properly parenthesized OR AND
    check("(apple OR banana) AND juice", TestExpectation::ValidNoWarnings);
    // properly parenthesized AND OR
    check("(apple AND banana) OR (juice AND smoothie)", TestExpectation::ValidNoWarnings);
    // properly parenthesized NOT AND OR
    check("apple NOT (bitter AND sweet) OR sour", TestExpectation::ValidNoWarnings);
}
