use bwq_linter::error::{Position, Span};
use bwq_linter::lsp::{lsp_position_to_byte_position, position_to_lsp, span_to_range, DiagnosticSeverity, DiagnosticsHandler, LspPosition};
use bwq_linter::BrandwatchLinter;
use bwq_linter::validation::{NumberFacts, NumberReading};
use bwq_linter::value_texts;

fn numbers(query: &str) -> NumberFacts {
    let texts = value_texts(query);
    let mut values: Vec<f64> =
        texts.iter().filter_map(|t| t.parse::<f64>().ok()).filter(|v| !v.is_nan()).collect();
    values.sort_by(|a, b| a.partial_cmp(b).unwrap());
    values.dedup_by(|a, b| a == b);
    let readings = texts
        .into_iter()
        .map(|t| {
            let reading = match t.parse::<f64>() {
                Ok(v) => NumberReading {
                    is_number: true,
                    within_latitude: (-90.0..=90.0).contains(&v),
                    within_longitude: (-180.0..=180.0).contains(&v),
                    ordered: !v.is_nan(),
                    rank: values.iter().position(|x| *x == v).unwrap_or(0) as u64,
                },
                Err(_) => NumberReading {
                    is_number: false,
                    within_latitude: false,
                    within_longitude: false,
                    ordered: false,
                    rank: 0,
                },
            };
            (t, reading)
        })
        .collect();
    NumberFacts { readings }
}

#[test]
fn test_position_conversion() {
    let pos = Position::new(1, 1, 0);
    let lsp_pos = position_to_lsp(&pos);
    assert_eq!(lsp_pos.line, 0);
    assert_eq!(lsp_pos.character, 0)
}

#[test]
fn test_span_conversion() {
    let span = Span::new(Position::new(1, 1, 0), Position::new(1, 5, 4));
    let range = span_to_range(&span);
    assert_eq!(range.start.line, 0);
    assert_eq!(range.start.character, 0);
    assert_eq!(range.end.line, 0);
    assert_eq!(range.end.character, 4);
}

#[test]
fn diagnostics_handler_test_diagnostics_conversion() {
    let mut linter = BrandwatchLinter::new();
    let handler = DiagnosticsHandler::new();

    let content = "rating:6 AND *invalid";
    let (diagnostics, _) = handler.analyze_content_with_ast(content, &mut linter, &numbers(content));

    assert!(!diagnostics.is_empty(), "Should have found some diagnostics");

    let errors: Vec<_> = diagnostics.iter().filter(|d| d.severity == DiagnosticSeverity::Error).collect();
    assert!(!errors.is_empty(), "Should have found at least one error");
}

#[test]
fn diagnostics_handler_test_valid_query_diagnostics() {
    let mut linter = BrandwatchLinter::new();
    let handler = DiagnosticsHandler::new();

    let content = "apple AND juice";
    let (diagnostics, _) = handler.analyze_content_with_ast(content, &mut linter, &numbers(content));

    let errors: Vec<_> = diagnostics.iter().filter(|d| d.severity == DiagnosticSeverity::Error).collect();
    assert!(errors.is_empty(), "Valid query should not have errors");
}

#[test]
fn diagnostics_test_diagnostics_conversion() {
    let mut linter = BrandwatchLinter::new();
    let handler = DiagnosticsHandler::new();

    let content = "rating:6 AND *invalid";
    let diagnostics = handler.analyze_content(content, &mut linter, &numbers(content));

    assert!(!diagnostics.is_empty(), "Should have found some diagnostics");

    let errors: Vec<_> = diagnostics.iter().filter(|d| d.severity == DiagnosticSeverity::Error).collect();
    assert!(!errors.is_empty(), "Should have found at least one error");
}

#[test]
fn diagnostics_test_valid_query_diagnostics() {
    let mut linter = BrandwatchLinter::new();
    let handler = DiagnosticsHandler::new();

    let content = "apple AND juice";
    let diagnostics = handler.analyze_content(content, &mut linter, &numbers(content));

    let errors: Vec<_> = diagnostics.iter().filter(|d| d.severity == DiagnosticSeverity::Error).collect();
    assert!(errors.is_empty(), "Valid query should not have errors");
}

#[test]
fn diagnostics_carry_code_range_and_text() {
    let mut linter = BrandwatchLinter::new();
    let handler = DiagnosticsHandler::new();
    let diagnostics = handler.analyze_content("apple this", &mut linter, &numbers("apple this"));
    assert_eq!(diagnostics.len(), 1);
    let d = &diagnostics[0];
    assert_eq!(d.severity, DiagnosticSeverity::Warning);
    assert_eq!(d.code, "W001");
    assert_eq!(d.source, "bwq");
    assert_eq!(d.range.start.line, 0);
    assert_eq!(d.range.start.character, 5);
    assert_eq!(d.range.end.character, 6);
    assert!(d.message.starts_with("Potential typo: "));

    let diagnostics = handler.analyze_content("rating:15", &mut linter, &numbers("rating:15"));
    assert_eq!(diagnostics.len(), 1);
    assert_eq!(diagnostics[0].code, "E009");
    assert_eq!(diagnostics[0].message, "Rating must be between 0 and 5");
    assert_eq!(diagnostics[0].range.end.character, 9);
}

#[test]
fn ast_only_when_the_query_parses() {
    let mut linter = BrandwatchLinter::new();
    let handler = DiagnosticsHandler::new();
    let (_, ast) = handler.analyze_content_with_ast("apple AND", &mut linter, &numbers("apple AND"));
    assert!(ast.is_none());
    let (_, ast) = handler.analyze_content_with_ast("rating:15", &mut linter, &numbers("rating:15"));
    assert!(ast.is_some());
}

#[test]
fn editor_positions_to_byte_offsets() {
    let at = |text: &str, line: u32, character: u32| lsp_position_to_byte_position(text, LspPosition { line, character });
    assert_eq!(at("hello\nworld", 1, 2), 8);
    assert_eq!(at("hello\nworld", 0, 99), 5);
    assert_eq!(at("a\r\nb", 1, 0), 3);
    assert_eq!(at("a\r\nb", 0, 5), 1);
    assert_eq!(at("日本\nx", 0, 1), 3);
    assert_eq!(at("😀a", 0, 1), 4);
    assert_eq!(at("😀a", 0, 2), 4);
    assert_eq!(at("😀a", 0, 3), 5);
    assert_eq!(at("one\ntwo", 5, 0), 7);
    assert_eq!(at("one\n", 1, 3), 4);
    assert_eq!(at("a\rb\nc", 0, 9), 3);
}
