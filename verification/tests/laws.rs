use bwq_linter::error::{LintError, Position, Span};
use bwq_linter::output::{str_width, FileResults, OutputFormat, Printer};
use bwq_linter::{analyze_query, lint_query, BrandwatchLinter};
use bwq_linter::validation::{NumberFacts, NumberReading};
use bwq_linter::value_texts;
use bwq_linter::ast::FieldType;

fn numbers(query: &str) -> NumberFacts {
    let texts = value_texts(query);
    let mut values: Vec<f64> =
        texts.iter().filter_map(|t| t.parse::<f64>().ok()).filter(|v| !v.is_nan()).collect();
    values.sort_by(|a, b| a.partial_cmp(b).unwrap());
    values.dedup_by(|a, b| a == b);
    let readings = texts
        .into_iter()
        .map(|t| {
            let reading = match t.parse::<f64>() {
                Ok(v) => NumberReading {
                    is_number: true,
                    within_latitude: (-90.0..=90.0).contains(&v),
                    within_longitude: (-180.0..=180.0).contains(&v),
                    ordered: !v.is_nan(),
                    rank: values.iter().position(|x| *x == v).unwrap_or(0) as u64,
                },
                Err(_) => NumberReading {
                    is_number: false,
                    within_latitude: false,
                    within_longitude: false,
                    ordered: false,
                    rank: 0,
                },
            };
            (t, reading)
        })
        .collect();
    NumberFacts { readings }
}

#[test]
fn valid_exactly_when_no_errors() {
    let a = analyze_query("rating:15", &numbers("rating:15"));
    assert!(!a.is_valid);
    assert_eq!(a.errors.len(), 1);
    let a = analyze_query("apple AND juice", &numbers("apple AND juice"));
    assert!(a.is_valid);
    assert!(a.errors.is_empty());
    let a = analyze_query("apple this", &numbers("apple this"));
    assert!(a.is_valid);
    assert_eq!(a.warnings.len(), 1);
}

#[test]
fn a_stopping_error_is_the_only_finding() {
    let a = analyze_query("(apple", &numbers("(apple"));
    assert!(!a.is_valid);
    assert_eq!(a.errors.len(), 1);
    assert_eq!(a.errors[0].code(), "E008");
    assert!(a.warnings.is_empty());
    assert!(lint_query("(apple", &numbers("(apple")).is_err());
}

#[test]
fn skipping_empty_queries_only_changes_blank_ones() {
    let mut linter = BrandwatchLinter::new();
    let a = linter.analyze_and_skip_empty("  \n\t ", &numbers("  \n\t "));
    assert!(a.is_valid);
    assert!(a.errors.is_empty());
    assert!(a.warnings.is_empty());
    let b = linter.analyze("  \n\t ", &numbers("  \n\t "));
    assert!(!b.is_valid);
    let c = linter.analyze_and_skip_empty("rating:15", &numbers("rating:15"));
    assert!(!c.is_valid);
    assert_eq!(c.errors.len(), 1);
}

#[test]
fn pure_negative_gets_one_error_last() {
    let a = analyze_query("NOT bitter", &numbers("NOT bitter"));
    let n = a.errors.iter().filter(|e| e.code() == "E013").count();
    assert_eq!(n, 1);
    assert_eq!(a.errors.last().unwrap().code(), "E013");
    let b = analyze_query("apple NOT bitter", &numbers("apple NOT bitter"));
    assert!(b.errors.iter().all(|e| e.code() != "E013"));
}

#[test]
fn parser_warnings_are_implicit_and_typos() {
    let report = lint_query("apple banana cherry", &numbers("apple banana cherry")).unwrap();
    assert_eq!(report.warnings.len(), 2);
    for w in &report.warnings {
        assert_eq!(w.code(), "W001");
        assert!(w.message().contains("implicitly ANDed"));
        let span = w.span();
        assert_eq!(span.end.line, span.start.line);
        assert_eq!(span.end.column, span.start.column + 1);
        assert_eq!(span.end.offset, span.start.offset + 1);
    }
    assert_eq!(report.warnings[0].span().start.column, 6);
    assert_eq!(report.warnings[1].span().start.column, 13);
}

#[test]
fn widths_add_up() {
    assert_eq!(str_width("ab"), 2);
    assert_eq!(str_width("日本"), 4);
    assert_eq!(str_width("ab日本"), str_width("ab") + str_width("日本"));
    assert_eq!(str_width("\t"), 4);
    assert_eq!(str_width("a\u{7}b"), 2);
    assert_eq!(str_width("…"), 1);
}

#[test]
fn truncated_lines_fit_in_the_width() {
    let long_query = format!("{} rating:15 {}", "word ".repeat(60), "日本 ".repeat(60));
    let a = analyze_query(&long_query, &numbers(&long_query));
    let text = Printer::new(OutputFormat::Text, true).print_analysis(&a).unwrap();
    let row = text.lines().find(|l| l.starts_with("1 | ")).unwrap();
    let shown = &row["1 | ".len()..];
    assert!(shown.contains('…'));
    assert!(str_width(shown) <= 200);
    assert!(shown.contains("rating:15"));
}

#[test]
fn file_results_have_errors_when_not_all_valid() {
    let mut results = FileResults::new();
    assert!(!results.has_errors());
    assert_eq!(results.valid_files(), 0);
    results.successful.push(("a.bwq".to_string(), analyze_query("apple", &numbers("apple")), "apple".to_string()));
    assert!(!results.has_errors());
    assert_eq!(results.valid_files(), results.total_files_processed());
    results.successful.push(("b.bwq".to_string(), analyze_query("rating:15", &numbers("rating:15")), "rating:15".to_string()));
    assert!(results.has_errors());
    assert!(results.valid_files() < results.total_files_processed());
    let mut unread = FileResults::new();
    unread.read_errors = 1;
    assert!(unread.has_errors());
}

#[test]
fn file_results_text() {
    let mut results = FileResults::new();
    results.successful.push(("a.bwq".to_string(), analyze_query("apple this", &numbers("apple this")), "apple this".to_string()));
    results.successful.push(("b.bwq".to_string(), analyze_query("rating:15", &numbers("rating:15")), "rating:15".to_string()));
    results.successful.push(("c.bwq".to_string(), analyze_query("apple AND juice", &numbers("apple AND juice")), "apple AND juice".to_string()));
    let text = Printer::new(OutputFormat::Text, true).print_file_results(&results).unwrap();
    assert!(text.contains("  --> \u{1b}[1ma.bwq\u{1b}[0m:1:6\n"));
    assert!(text.contains("  --> \u{1b}[1mb.bwq\u{1b}[0m:1:1\n"));
    assert!(text.ends_with("Summary: 2/3 files valid\n"));

    results.read_errors = 2;
    let text = Printer::new(OutputFormat::Text, false).print_file_results(&results).unwrap();
    assert!(!text.contains("a.bwq"));
    assert!(text.ends_with("Summary: 2/3 files valid (2 files could not be read)\n"));

    let mut ok = FileResults::new();
    ok.successful.push(("c.bwq".to_string(), analyze_query("apple AND juice", &numbers("apple AND juice")), "apple AND juice".to_string()));
    let text = Printer::new(OutputFormat::Text, true).print_file_results(&ok).unwrap();
    assert_eq!(text, "All checks passed!\n");
}

#[test]
fn multi_line_span_out_of_order_on_a_long_line_is_refused() {
    let line = "x".repeat(300);
    let query = format!("{line}\nabc");
    let mut a = analyze_query("apple", &numbers("apple"));
    a.query = query;
    a.errors.push(LintError::ValidationError {
        span: Span::new(Position::new(1, 50, 49), Position::new(2, 3, 303)),
        message: "spans two lines".to_string(),
    });
    assert!(Printer::new(OutputFormat::Text, true).print_analysis(&a).is_none());
}

#[test]
fn exact_snippet_with_warning_and_error() {
    let a = analyze_query("rating:15 this", &numbers("rating:15 this"));
    let text = Printer::new(OutputFormat::Text, true).print_analysis(&a).unwrap();
    let expected = "\u{1b}[1;31merror[E009]\u{1b}[0m: Rating must be between 0 and 5\n  --> 1:1\n  |\n1 | rating:15 this\n  | \u{1b}[1;31m^^^^^^^^^\u{1b}[0m\n  |\n\n\u{1b}[1;33mwarning[W001]\u{1b}[0m: Potential typo: Two or more terms without an operator between them are implicitly ANDed. Consider using explicit 'AND' operator for clarity\n  --> 1:10\n  |\n1 | rating:15 this\n  | \u{1b}[1;33m         ^\u{1b}[0m\n  |\n\n";
    assert_eq!(text, expected);
    let quiet = Printer::new(OutputFormat::Text, false).print_analysis(&a).unwrap();
    assert!(!quiet.contains("warning["));
}

#[test]
fn end_of_input_token_only_at_the_end() {
    let mut lexer = bwq_linter::lexer::Lexer::new("apple AND (juice OR \"x y\") <<<note>>> #tag");
    let tokens = lexer.tokenize().unwrap();
    let last = tokens.len() - 1;
    for (i, t) in tokens.iter().enumerate() {
        let is_eof = matches!(t.token_type, bwq_linter::lexer::TokenType::Eof);
        assert_eq!(is_eof, i == last);
    }
}

#[test]
fn report_records_added_findings() {
    let mut report = bwq_linter::error::LintReport::new();
    assert!(report.is_clean());
    report.add_warning(bwq_linter::error::LintWarning::PotentialTypo {
        span: Span::single(Position::new(1, 1, 0)),
        message: "m".to_string(),
    });
    assert!(report.has_warnings());
    assert!(!report.has_errors());
    assert!(!report.is_clean());
    report.add_error(LintError::ParserError { span: Span::single(Position::new(1, 1, 0)), message: "e".to_string() });
    assert!(report.has_errors());
    assert_eq!(report.errors.len(), 1);
    assert_eq!(report.warnings.len(), 1);
}

#[test]
fn trimming_file_contents() {
    use_trim("  apple AND juice \n", "apple AND juice");
    use_trim("\t\n ", "");
    use_trim("x", "x");
    use_trim("\u{3000}日本\u{a0}", "日本");
}

fn use_trim(input: &str, expected: &str) {
    assert_eq!(bwq_linter::text::trimmed(input), expected);
    assert_eq!(bwq_linter::text::trimmed(input), input.trim());
}

#[test]
fn law_token_text_and_lines_example() {
    let query = "apple AND\n  \"juice box\"~3 <<<note\n>>> #tag";
    let chars: Vec<char> = query.chars().collect();
    let tokens = bwq_linter::lexer::Lexer::new(query).tokenize().unwrap();
    for pair in tokens.windows(2) {
        assert!(pair[0].span.end.offset <= pair[1].span.start.offset);
    }
    for t in &tokens[..tokens.len() - 1] {
        let covered: String = chars[t.span.start.offset..t.span.end.offset].iter().collect();
        assert_eq!(covered, t.raw);
        let feeds = chars[..t.span.start.offset].iter().filter(|c| **c == '\n').count();
        assert_eq!(t.span.start.line, 1 + feeds);
        let feeds_end = chars[..t.span.end.offset].iter().filter(|c| **c == '\n').count();
        assert_eq!(t.span.end.line, 1 + feeds_end);
    }
    let quoted = tokens.iter().find(|t| t.raw == "\"juice box\"").unwrap();
    assert_eq!(quoted.span.start.line, 2);
    let tag = tokens.iter().find(|t| t.raw == "#tag").unwrap();
    assert_eq!(tag.span.start.line, 3);
}

#[test]
fn law_parse_spans_example() {
    let query = "(apple OR juice) AND [1 TO 2] NOT \"fresh fruit\"~2";
    let tokens = bwq_linter::lexer::Lexer::new(query).tokenize().unwrap();
    let parsed = bwq_linter::parse_query(query).unwrap();
    let span = parsed.query.span;
    assert_eq!(span, *parsed.query.expression.span());
    assert_eq!(span.start, tokens[0].span.start);
    // The expression ends where the `~` ends: its distance is read but not spanned.
    let tilde = tokens.iter().find(|t| t.raw == "~").unwrap();
    assert_eq!(span.end, tilde.span.end);
}

#[test]
fn law_field_lookup_any_text() {
    assert_eq!(FieldType::from_str("authorGENDER"), Some(FieldType::AuthorGender));
    assert_eq!(FieldType::from_str("Äuthorgender"), FieldType::from_str("äUTHORGENDER"));
    assert_eq!(FieldType::from_str("SUBREDDITnsfw"), Some(FieldType::SubredditNSFW));
}
