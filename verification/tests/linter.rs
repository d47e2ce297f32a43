use bwq_linter::error::LintReport;
use bwq_linter::{analyze_query, lint_query, BrandwatchLinter};
use bwq_linter::validation::{NumberFacts, NumberReading};
use bwq_linter::value_texts;
use bwq_linter::ast::FieldType;

fn numbers(query: &str) -> NumberFacts {
    let texts = value_texts(query);
    let mut values: Vec<f64> =
        texts.iter().filter_map(|t| t.parse::<f64>().ok()).filter(|v| !v.is_nan()).collect();
    values.sort_by(|a, b| a.partial_cmp(b).unwrap());
    values.dedup_by(|a, b| a == b);
    let readings = texts
        .into_iter()
        .map(|t| {
            let reading = match t.parse::<f64>() {
                Ok(v) => NumberReading {
                    is_number: true,
                    within_latitude: (-90.0..=90.0).contains(&v),
                    within_longitude: (-180.0..=180.0).contains(&v),
                    ordered: !v.is_nan(),
                    rank: values.iter().position(|x| *x == v).unwrap_or(0) as u64,
                },
                Err(_) => NumberReading {
                    is_number: false,
                    within_latitude: false,
                    within_longitude: false,
                    ordered: false,
                    rank: 0,
                },
            };
            (t, reading)
        })
        .collect();
    NumberFacts { readings }
}

struct QueryTest {
    linter: BrandwatchLinter,
}

impl QueryTest {
    fn new() -> Self {
        QueryTest { linter: BrandwatchLinter::new() }
    }

    fn report(&mut self, query: &str) -> LintReport {
        match self.linter.lint(query, &numbers(query)) {
            Ok(report) => report,
            Err(error) => panic!("Expected query to parse but got: {query} - {}", error.message()),
        }
    }

    fn assert_valid(&mut self, query: &str) {
        let report = self.report(query);
        assert!(!report.has_errors(), "Expected query to be valid: {query} - {:?}", report.errors);
    }

    fn assert_valid_with_warning(&mut self, query: &str) {
        let report = self.report(query);
        assert!(!report.has_errors(), "Expected query to be valid: {query} - {:?}", report.errors);
        assert!(report.has_warnings(), "Expected query to have warnings: {query}");
    }

    fn assert_error_code(&mut self, query: &str, expected_code: &str) {
        match self.linter.lint(query, &numbers(query)) {
            Ok(report) => {
                assert!(report.has_errors(), "Expected query to have errors: {query}");
                assert!(
                    report.errors.iter().any(|e| e.code() == expected_code),
                    "Expected error {expected_code} for {query}, got {:?}",
                    report.errors.iter().map(|e| e.code()).collect::<Vec<_>>()
                );
            },
            Err(error) => assert_eq!(error.code(), expected_code, "query: {query}"),
        }
    }

    fn assert_warning_code(&mut self, query: &str, expected_code: &str) {
        let report = self.report(query);
        assert!(!report.warnings.is_empty(), "Expected query to have warnings: {query}");
        assert!(
            report.warnings.iter().any(|w| w.code() == expected_code),
            "Expected warning {expected_code} for {query}, got {:?}",
            report.warnings.iter().map(|w| w.code()).collect::<Vec<_>>()
        );
    }

    fn assert_no_warnings(&mut self, query: &str) {
        let report = self.report(query);
        assert!(report.warnings.is_empty(), "Expected no warnings for {query}, got {:?}", report.warnings);
    }

    fn assert_valid_no_warnings(&mut self, query: &str) {
        self.assert_valid(query);
        self.assert_no_warnings(query);
    }
}

#[test]
fn test_basic_linting() {
    let mut linter = BrandwatchLinter::new();
    let report = linter.lint("apple AND juice", &numbers("apple AND juice")).unwrap();
    assert!(!report.has_errors());
}

#[test]
fn test_invalid_query() {
    let mut linter = BrandwatchLinter::new();
    let report = linter.lint("rating:6", &numbers("rating:6")).unwrap();
    assert!(report.has_errors());
}

#[test]
fn test_complex_query() {
    let query = r#"(apple OR orange) AND "fruit juice" NOT bitter"#;
    let mut linter = BrandwatchLinter::new();
    let report = linter.lint(query, &numbers(query)).unwrap();
    assert!(!report.has_errors());
}

#[test]
fn test_field_query() {
    let query = r#"title:"apple juice" AND site:twitter.com"#;
    let mut linter = BrandwatchLinter::new();
    let report = linter.lint(query, &numbers(query)).unwrap();
    assert!(!report.has_errors());
}

#[test]
fn test_proximity_query() {
    let mut linter = BrandwatchLinter::new();
    let report1 = linter.lint(r#"apple NEAR/3 juice"#, &numbers(r#"apple NEAR/3 juice"#)).unwrap();
    assert!(!report1.has_errors());
    let report2 = linter.lint(r#""apple juice"~5"#, &numbers(r#""apple juice"~5"#)).unwrap();
    assert!(!report2.has_errors());
}

#[test]
fn test_lint_single_query() {
    let analysis = analyze_query("apple AND juice", &numbers("apple AND juice"));
    assert!(analysis.is_valid);
}

#[test]
fn integration_tests_test_case_sensitive_matching() {
    let mut test = QueryTest::new();
    test.assert_valid_no_warnings("{BrandWatch}");
    test.assert_valid_no_warnings("apple AND {BT}");
    test.assert_valid_no_warnings("{Brand Watch}");
}

#[test]
fn integration_tests_test_comments() {
    let mut test = QueryTest::new();
    test.assert_valid_no_warnings("apple <<<This is a comment>>> AND juice");
    test.assert_valid_no_warnings("<<<Brand monitoring>>> \"brand name\"");
    test.assert_valid_no_warnings("(election*) OR <<<DE>>> (wahl OR wahle*)");
    test.assert_valid_no_warnings("apple <<<first>>> OR <<<second>>> juice");
}

#[test]
fn test_basic_field_operators() {
    let mut test = QueryTest::new();
    test.assert_valid_no_warnings("title:\"apple juice\"");
    test.assert_valid_no_warnings("site:twitter.com");
    test.assert_valid_no_warnings("author:  brandwatch");
    test.assert_valid_no_warnings("blogName:comedycentral");
    test.assert_valid_no_warnings("tags:photography");
    test.assert_valid_no_warnings("subreddit:nba");
    test.assert_error_code("subreddit : nba", "E001");
    test.assert_error_code("subreddit :nba", "E001");
    test.assert_error_code("randomword : randomword2", "E001");
}

#[test]
fn integration_tests_test_implicit_and_behavior() {
    let mut test = QueryTest::new();
    test.assert_valid("apple banana");
    test.assert_warning_code("apple banana", "W001");
    test.assert_error_code("apple banana OR cherry", "E012");
    test.assert_valid("(apple banana) OR cherry");
    test.assert_warning_code("(apple banana) OR cherry", "W001");
    test.assert_valid_no_warnings("apple AND banana");
    test.assert_valid("apple and juice");
    test.assert_warning_code("apple and juice", "W001");
}

#[test]
fn integration_tests_test_operators_on_groupings() {
    let mut test = QueryTest::new();
    test.assert_valid_no_warnings("((smartphone OR phone) NEAR/5 (review OR rating)) AND ((camera OR battery) NEAR/3 (excellent OR amazing))");
    test.assert_valid_no_warnings("\"apple juice\"~5 AND (organic OR natural)");
    test.assert_valid_no_warnings("juice NOT (apple AND (bitter OR sour))");
    test.assert_valid_no_warnings("((brand OR company) NEAR/2f (announcement OR news)) AND (exciting OR important)");
    test.assert_valid_no_warnings("((complain* NEAR/5 product*) NOT (resolve* NEAR/3 solution*)) AND site:twitter.com");
    test.assert_valid_no_warnings("(apple AND juice)~2 AND test");
    test.assert_valid_no_warnings("((apple NEAR/2 juice) OR (orange NEAR/3 smoothie)) AND fresh");
}

#[test]
fn integration_tests_test_near_operator_interaction_validation() {
    let mut test = QueryTest::new();
    for query in ["(apple OR orange) NEAR/5 (juice OR drink) AND fresh", "(apple OR orange) NEAR/5 (juice OR drink) OR fresh"] {
        test.assert_error_code(query, "E010");
    }
    for query in [
        "((apple OR orange) NEAR/5 (juice OR drink)) AND fresh",
        "(apple NEAR/3 banana) OR (juice NEAR/2 smoothie)",
        "(apple NEAR/5 juice) AND (banana NEAR/3 smoothie)",
    ] {
        test.assert_valid_no_warnings(query);
    }
}

#[test]
fn test_field_operators() {
    let mut test = QueryTest::new();
    test.assert_valid_no_warnings("title:\"apple juice\"");
    test.assert_valid_no_warnings("site:twitter.com");
    test.assert_valid_no_warnings("author:  brandwatch");
    test.assert_valid_no_warnings("language:en");
    test.assert_valid_no_warnings("country:usa");
    test.assert_valid_no_warnings("region:usa.ca");
    test.assert_valid_no_warnings("city:\"usa.ca.san francisco\"");
}

#[test]
fn test_range_operators() {
    let mut test = QueryTest::new();
    test.assert_valid_no_warnings("rating:[3 TO 5]");
    test.assert_valid_no_warnings("authorFollowers:[1000 TO 50000]");
    test.assert_valid_no_warnings("latitude:[41 TO 44]");
    test.assert_valid_no_warnings("longitude:[-73 TO -69]");
    test.assert_valid_no_warnings("minuteOfDay:[1110 TO 1140]");
}

#[test]
fn test_complex_field_operator_combinations() {
    let mut test = QueryTest::new();
    test.assert_valid_no_warnings("((country:usa OR country:gbr) AND (language:en OR language:es)) AND ((authorGender:F AND authorVerified:true) OR authorFollowers:[10000 TO 100000])");
    test.assert_valid_no_warnings("((continent:europe AND country:gbr) OR (continent:north_america AND country:usa)) AND ((city:\"new york\" OR city:london) AND language:en)");
    test.assert_valid_no_warnings("((minuteOfDay:[480 TO 720] OR minuteOfDay:[1080 TO 1320]) AND (engagementType:RETWEET OR engagementType:QUOTE)) AND ((authorFollowers:[1000 TO 50000] AND authorVerified:true) OR rating:[4 TO 5])");
    test.assert_valid_no_warnings("((subreddit:technology OR subreddit:programming) AND (redditAuthorFlair:developer OR redditAuthorFlair:engineer)) AND ((redditspoiler:false AND subredditNSFW:false) OR authorVerified:true)");
}

#[test]
fn test_comment_integration_in_complex_queries() {
    let mut test = QueryTest::new();
    test.assert_valid_no_warnings("apple <<<fruit category>>> AND ((juice <<<beverage>>> OR smoothie <<<drink>>>)) NOT <<<exclude>>> bitter");
    test.assert_valid_no_warnings("((brand <<<company>>> AND product <<<item>>>) OR (service <<<offering>>> AND quality <<<standard>>>)) AND <<<monitoring>>> positive");
}

#[test]
fn test_hashtag_mention_complex_combinations() {
    let mut test = QueryTest::new();
    test.assert_valid_no_warnings("(((#MondayMotivation OR #InspirationalQuote) AND (@company OR @brand)) AND ((positive OR inspiring) NOT (spam OR promotional))) AND ((site:twitter.com OR site:instagram.com) AND language:en)");
    test.assert_valid_no_warnings("((#technology AND #innovation) OR (@techcompany AND @startup)) AND ((breakthrough OR revolutionary) NEAR/5 (product OR service))");
}

#[test]
fn test_comments_dont_participate_in_implicit_and() {
    let mut test = QueryTest::new();
    test.assert_valid_no_warnings("apple OR <<<comment>>> juice");
    test.assert_valid_no_warnings("<<<comment>>> apple OR juice");
    test.assert_valid_no_warnings("apple <<<comment>>> OR juice");
    test.assert_valid_no_warnings("(election*) OR <<<DE>>> (wahl OR wahle*)");
    test.assert_valid_no_warnings("apple <<<first>>> OR <<<second>>> juice");
}

#[test]
fn linter_boolean_and_wildcard_cases() {
    let mut test = QueryTest::new();
    test.assert_valid_no_warnings("apple NOT bitter NOT sour");
    test.assert_error_code("NOT bitter", "E013");
    test.assert_valid_no_warnings("NOT term1 AND term2");
    test.assert_error_code("NOT term1 NOT term2", "E013");
    test.assert_valid_no_warnings("ab*");
    test.assert_valid_with_warning("#*test");
    test.assert_warning_code("@*test", "W002");
    test.assert_error_code("*invalid", "E004");
    test.assert_error_code("a*", "E004");
    test.assert_valid_no_warnings("t*est");
    test.assert_valid_no_warnings("test;test;test");
    test.assert_valid_no_warnings("apple* OR juice*");
    test.assert_valid_no_warnings("42 OR 24*");
    test.assert_valid_no_warnings("a");
    test.assert_error_code("", "E007");
    test.assert_error_code("   ", "E007");
    test.assert_error_code("apple AND ()", "E007");
    test.assert_error_code("OR juice", "E007");
}

#[test]
fn linter_field_cases() {
    let mut test = QueryTest::new();
    test.assert_error_code("rating:[-1 TO 3]", "E009");
    test.assert_error_code("rating:[x TO y]", "E009");
    test.assert_error_code("rating:[1 to 5]", "E008");
    test.assert_error_code("authorVerified:1", "E009");
    test.assert_warning_code("language:ENG", "W001");
    test.assert_valid_no_warnings("languag:e");
    test.assert_error_code("engagementType:LIKE", "E009");
    test.assert_error_code("authorVerifiedType:gold", "E009");
    test.assert_error_code("minuteOfDay:[0 TO 1440]", "E009");
    test.assert_error_code("authorFollowers:[0 TO 10000000000]", "E011");
    test.assert_error_code("authorFollowers:[x TO y]", "E009");
    test.assert_error_code("authorFollowers:term", "E009");
    test.assert_error_code("authorGender:X", "E009");
}

#[test]
fn linter_unicode_cases() {
    let mut test = QueryTest::new();
    test.assert_valid_no_warnings("दुष्प्रचार OR \"नकली खबर\" OR नकलीखबर ");
    test.assert_valid_no_warnings("🇪🇺 AND europe");
    test.assert_valid_no_warnings("€100 OR $50");
    test.assert_valid_no_warnings("O'Reilly OR McDonald's");
    test.assert_valid_with_warning("🎉 celebration");
    test.assert_valid_no_warnings("https://www.youtube.com/");
    test.assert_valid_no_warnings("site:reddit.com/r/programming");
}

#[test]
fn analysis_results() {
    let analysis = analyze_query("rating:15", &numbers("rating:15"));
    assert!(!analysis.is_valid);
    assert_eq!(analysis.errors.len(), 1);
    assert_eq!(analysis.errors[0].message(), "Rating must be between 0 and 5");
    assert_eq!(analysis.query, "rating:15");

    let analysis = analyze_query("\"open", &numbers("\"open"));
    assert!(!analysis.is_valid);
    assert_eq!(analysis.errors[0].code(), "E001");
    assert!(analysis.warnings.is_empty());

    let mut linter = BrandwatchLinter::new();
    let analysis = linter.analyze_and_skip_empty(" \n\t ", &numbers(" \n\t "));
    assert!(analysis.is_valid);
    assert!(analysis.errors.is_empty());
    let analysis = linter.analyze(" \n\t ", &numbers(" \n\t "));
    assert!(!analysis.is_valid);

    assert!(lint_query("apple this", &numbers("apple this")).unwrap().warnings.len() == 1);
}

#[test]
fn test_coordinate_field_validation() {
    let mut test = QueryTest::new();
    test.assert_valid_no_warnings("latitude:[40 TO 42]");
    test.assert_valid_no_warnings("longitude:[-73 TO -69]");
    test.assert_valid_no_warnings("continent:europe");
    test.assert_error_code("latitude:[100 TO 110]", "E009");
    test.assert_error_code("longitude:[-200 TO -150]", "E009");
    test.assert_error_code("latitude:[x TO y]", "E009");
}

#[test]
fn test_author_followers_field_validation() {
    let mut test = QueryTest::new();
    test.assert_valid_no_warnings("authorFollowers:[0 TO 5000]");
    test.assert_error_code("authorFollowers:[-100 TO 10000]", "E011");
    test.assert_error_code("authorFollowers:[100000 TO 1000]", "E011");
    test.assert_error_code("authorFollowers:[0 TO 10000000000]", "E011");
    test.assert_error_code("authorFollowers:[x TO y]", "E009");
    test.assert_error_code("authorFollowers:term", "E009");
}

#[test]
fn test_guid_field_validation() {
    let mut test = QueryTest::new();
    test.assert_valid_no_warnings("guid:123456789");
    test.assert_valid_no_warnings("guid:123_456_789");
    test.assert_error_code("guid:term", "E009");
    test.assert_error_code("guid:123abc", "E009");
    test.assert_error_code("guid:123-456", "E009");
}

#[test]
fn coordinate_term_messages() {
    let report = lint_query("latitude:100", &numbers("latitude:100")).unwrap();
    assert_eq!(report.errors.len(), 1);
    assert_eq!(report.errors[0].code(), "E009");
    assert_eq!(report.errors[0].message(), "Latitude must be between -90 and 90");
    let report = lint_query("longitude:-181", &numbers("longitude:-181")).unwrap();
    assert_eq!(report.errors.len(), 1);
    assert_eq!(report.errors[0].message(), "Longitude must be between -180 and 180");
    let report = lint_query("longitude:-180", &numbers("longitude:-180")).unwrap();
    assert!(report.errors.is_empty());
    let report = lint_query("latitude:[-91 TO 0]", &numbers("latitude:[-91 TO 0]")).unwrap();
    assert_eq!(report.errors[0].message(), "Latitude values must be between -90 and 90");
    let report = lint_query("longitude:[a TO 10]", &numbers("longitude:[a TO 10]")).unwrap();
    assert_eq!(report.errors[0].message(), "Longitude range values must be numbers");
}

#[test]
fn reversed_range_message() {
    let q = "authorFollowers:[100000 TO 1000]";
    let report = lint_query(q, &numbers(q)).unwrap();
    assert!(report
        .errors
        .iter()
        .any(|e| e.code() == "E011" && e.message() == "Invalid field range: Range start value cannot be greater than end value"));
    let q = "rating:[4 TO 2]";
    let report = lint_query(q, &numbers(q)).unwrap();
    assert!(report.errors.iter().any(|e| e.message() == "Invalid field range: Range start value cannot be greater than end value"));
    let q = "rating:[2 TO 2]";
    let report = lint_query(q, &numbers(q)).unwrap();
    assert!(report.errors.is_empty());
}

#[test]
fn float_rules_without_number_readings() {
    // With no readings, no value reads as a number: the range comparison never fires.
    let q = "authorFollowers:[100000 TO 1000]";
    let report = lint_query(q, &NumberFacts::new()).unwrap();
    assert!(!report.errors.iter().any(|e| e.message() == "Invalid field range: Range start value cannot be greater than end value"));
}

#[test]
fn coordinate_errors_in_walk_order() {
    // The coordinate error of the first field comes before the errors met later in the walk.
    let q = "latitude:100 AND rating:9";
    let report = lint_query(q, &numbers(q)).unwrap();
    let messages: Vec<String> = report.errors.iter().map(|e| e.message()).collect();
    assert_eq!(messages.len(), 2);
    assert_eq!(messages[0], "Latitude must be between -90 and 90");
}

#[test]
fn lint_report_default_is_empty() {
    let report = LintReport::default();
    assert!(report.errors.is_empty() && report.warnings.is_empty());
    assert!(report.is_clean() && !report.has_errors() && !report.has_warnings());
    assert_eq!(report, LintReport::new());
}

#[test]
fn field_names_ignore_case() {
    assert_eq!(FieldType::from_str("AUTHORGENDER"), Some(FieldType::AuthorGender));
    assert_eq!(FieldType::from_str("authorGender"), Some(FieldType::AuthorGender));
    assert_eq!(FieldType::from_str(FieldType::ChannelId.as_str()), Some(FieldType::ChannelId));
    assert_eq!(FieldType::from_str("languag"), None);
}
