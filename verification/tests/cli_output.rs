use bwq_linter::analyze_query;
use bwq_linter::commands::{failure_status, query_status, ExitStatus};
use bwq_linter::output::{FileResults, OutputFormat, Printer};
use bwq_linter::validation::{NumberFacts, NumberReading};
use bwq_linter::value_texts;

fn numbers(query: &str) -> NumberFacts {
    let texts = value_texts(query);
    let mut values: Vec<f64> =
        texts.iter().filter_map(|t| t.parse::<f64>().ok()).filter(|v| !v.is_nan()).collect();
    values.sort_by(|a, b| a.partial_cmp(b).unwrap());
    values.dedup_by(|a, b| a == b);
    let readings = texts
        .into_iter()
        .map(|t| {
            let reading = match t.parse::<f64>() {
                Ok(v) => NumberReading {
                    is_number: true,
                    within_latitude: (-90.0..=90.0).contains(&v),
                    within_longitude: (-180.0..=180.0).contains(&v),
                    ordered: !v.is_nan(),
                    rank: values.iter().position(|x| *x == v).unwrap_or(0) as u64,
                },
                Err(_) => NumberReading {
                    is_number: false,
                    within_latitude: false,
                    within_longitude: false,
                    ordered: false,
                    rank: 0,
                },
            };
            (t, reading)
        })
        .collect();
    NumberFacts { readings }
}

fn strip_ansi_codes(s: &str) -> String {
    let mut result = String::new();
    let mut chars = s.chars();

    while let Some(ch) = chars.next() {
        if ch == '\x1b' {
            if chars.next() == Some('[') {
                for next_ch in chars.by_ref() {
                    if next_ch.is_ascii_alphabetic() {
                        break;
                    }
                }
            }
        } else {
            result.push(ch);
        }
    }

    result
}

/// What `check --query` writes for `query`, and its exit code.
fn check_query_with(query: &str, show_warnings: bool) -> (String, String, i32) {
    let analysis = analyze_query(query, &numbers(query));
    let printer = Printer::new(OutputFormat::Text, show_warnings);
    let status = query_status(analysis.is_valid, false);
    match printer.print_analysis(&analysis) {
        Some(stdout) => (strip_ansi_codes(&stdout), String::new(), status.code()),
        None => (String::new(), "Error: the analysis could not be printed as text".to_string(), 2),
    }
}

fn check_query(query: &str) -> (String, String, i32) {
    check_query_with(query, true)
}

fn assert_cmd_output(cmd_result: (String, String, i32), expected: &str) {
    let (stdout, stderr, exit_code) = cmd_result;
    let success = exit_code == 0;

    let actual_output = format!(
        "success: {}\nexit_code: {}\n----- stdout -----\n{}\n----- stderr -----\n{}",
        success,
        exit_code,
        stdout.trim_end(),
        stderr.trim_end()
    );

    let expected_clean = expected.trim();
    let actual_clean = actual_output.trim();

    if expected_clean != actual_clean {
        println!("=== EXPECTED ===");
        println!("{expected_clean}");
        println!("=== ACTUAL ===");
        println!("{actual_clean}");
        panic!("Command output does not match expected format");
    }
}

#[test]
fn test_error_display_simple() {
    let cmd_result = check_query("rating:15");

    assert_cmd_output(
        cmd_result,
        r"
success: false
exit_code: 1
----- stdout -----
error[E009]: Rating must be between 0 and 5
  --> 1:1
  |
1 | rating:15
  | ^^^^^^^^^
  |
----- stderr -----
",
    );
}

#[test]
fn test_warning_display() {
    let cmd_result = check_query("apple this");

    assert_cmd_output(
        cmd_result,
        r"
success: true
exit_code: 0
----- stdout -----
warning[W001]: Potential typo: Two or more terms without an operator between them are implicitly ANDed. Consider using explicit 'AND' operator for clarity
  --> 1:6
  |
1 | apple this
  |      ^
  |
----- stderr -----
",
    );
}

#[test]
fn test_multiline_error() {
    let query = "apple AND juice AND\nrating:15\nAND something AND else";
    let cmd_result = check_query(query);

    assert_cmd_output(
        cmd_result,
        r"
success: false
exit_code: 1
----- stdout -----
error[E009]: Rating must be between 0 and 5
  --> 2:1
  |
1 | apple AND juice AND
2 | rating:15
  | ^^^^^^^^^
3 | AND something AND else
  |
----- stderr -----
",
    );
}

#[test]
fn test_long_line_truncation() {
    let long_query = format!(
        "this is a very long query with many terms {} rating:15 more terms here",
        "word ".repeat(50)
    );
    let (stdout, stderr, exit_code) = check_query(&long_query);

    assert_eq!(exit_code, 1);
    assert!(stderr.is_empty());

    assert!(stdout.contains("error[E009]: Rating must be between 0 and 5"));
    assert!(stdout.contains("…"));
    assert!(stdout.contains("rating:15"));
    assert!(stdout.contains("^^^^^^^^^"));
}

#[test]
fn test_double_digit_line_numbers() {
    let query = (0..15)
        .map(|i| format!("line{i}"))
        .collect::<Vec<_>>()
        .join("\n")
        + "\nrating:15";
    let (stdout, stderr, exit_code) = check_query(&query);

    assert_eq!(exit_code, 1);
    assert!(stderr.is_empty());

    assert!(stdout.contains("error[E009]: Rating must be between 0 and 5"));
    assert!(stdout.contains("  --> 16:1"));
    assert!(stdout.contains("14 | line13"));
    assert!(stdout.contains("15 | line14"));
    assert!(stdout.contains("16 | rating:15"));
    assert!(stdout.contains("   | ^^^^^^^^^"));
}

#[test]
fn integration_test_test_valid_query() {
    let (stdout, stderr, exit_code) = check_query("apple AND juice");

    assert_eq!(exit_code, 0);
    assert!(stderr.is_empty());
    assert_eq!(stdout.trim(), "All checks passed!");
}

#[test]
fn test_no_warnings_flag() {
    let (stdout, stderr, exit_code) = check_query_with("apple this", false);

    assert_eq!(exit_code, 0);
    assert!(stderr.is_empty());
    assert_eq!(stdout.trim(), "All checks passed!");
}

#[test]
fn test_error_spans_complex_query() {
    let query = "(apple OR orange) AND rating:15 AND juice";
    let (stdout, stderr, exit_code) = check_query(query);

    assert_eq!(exit_code, 1);
    assert!(stderr.is_empty());

    assert!(stdout.contains("error[E009]: Rating must be between 0 and 5"));
    assert!(stdout.contains("  --> 1:23"));
    assert!(stdout.contains("rating:15"));
    assert!(stdout.contains("^^^^^^^^^"));
}

#[test]
fn json_format_leaves_output_to_the_caller() {
    let analysis = analyze_query("rating:15", &numbers("rating:15"));
    let printer = Printer::new(OutputFormat::Json, true);
    assert!(printer.print_analysis(&analysis).is_none());
}

#[test]
fn output_format_names() {
    assert_eq!(OutputFormat::from_name("json"), OutputFormat::Json);
    assert_eq!(OutputFormat::from_name("JSON"), OutputFormat::Json);
    assert_eq!(OutputFormat::from_name("text"), OutputFormat::Text);
    assert_eq!(OutputFormat::from_name("yaml"), OutputFormat::Text);
}

#[test]
fn exit_codes() {
    assert_eq!(ExitStatus::Success.code(), 0);
    assert_eq!(ExitStatus::LintFailure.code(), 1);
    assert_eq!(ExitStatus::Error.code(), 2);
    assert_eq!(query_status(false, true), ExitStatus::Success);
    assert_eq!(query_status(false, false), ExitStatus::LintFailure);
    assert_eq!(query_status(true, false), ExitStatus::Success);
}

/// What `check` writes for files holding `contents` at `paths`, and its exit code.
fn check_files(files: &[(&str, &str)]) -> (String, String, i32) {
    let mut results = FileResults::new();
    for (path, content) in files {
        let query = bwq_linter::text::trimmed(content);
        results.successful.push((path.to_string(), analyze_query(&query, &numbers(&query)), query.clone()));
    }
    let printer = Printer::new(OutputFormat::Text, true);
    let stdout = printer.print_file_results(&results).expect("text output for these files");
    let status = if results.has_errors() { failure_status(ExitStatus::LintFailure, false) } else { ExitStatus::Success };
    (strip_ansi_codes(&stdout), String::new(), status.code())
}

#[test]
fn test_file_based_checking() {
    let file_path = "/tmp/checks/test.bwq";
    let (stdout, stderr, exit_code) = check_files(&[(file_path, "rating:15")]);

    assert_eq!(exit_code, 1);
    assert!(stderr.is_empty());

    assert!(stdout.contains("error[E009]: Rating must be between 0 and 5"));
    assert!(stdout.contains(&format!("  --> {}:1:1", file_path)));
    assert!(stdout.contains("1 | rating:15"));
    assert!(stdout.contains("  | ^^^^^^^^^"));
}

#[test]
fn test_multiple_files() {
    let file1 = "/tmp/checks/error.bwq";
    let file2 = "/tmp/checks/warning.bwq";
    let file3 = "/tmp/checks/valid.bwq";
    let (stdout, stderr, exit_code) =
        check_files(&[(file1, "rating:15"), (file2, "apple this"), (file3, "apple AND juice")]);

    assert_eq!(exit_code, 1);
    assert!(stderr.is_empty());

    assert!(stdout.contains("error[E009]: Rating must be between 0 and 5"));
    assert!(stdout.contains(&format!("  --> {}:1:1", file1)));

    assert!(stdout.contains("warning[W001]:"));
    assert!(stdout.contains(&format!("  --> {}:1:6", file2)));

    assert!(stdout.contains("Summary: "));
}
