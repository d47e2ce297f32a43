//! Linter for Brandwatch boolean search queries.
pub mod text;
pub mod number;
pub mod error;
pub mod ast;
pub mod lexer;
pub mod parser;
pub mod validation;
pub mod validator;
pub mod output;
pub mod commands;
pub mod lsp;

use vstd::prelude::*;
use crate::error::{errors_view, warnings_view, LintError, LintErrorView, LintReport, LintReportView, LintResult, LintWarning, LintWarningView};
use crate::lexer::{input_fits, tokenize_spec, tokens_view, LexState, Lexer, TokenType, TokenTypeView, TokenView};
use crate::parser::{comment_filter, parse_query_spec, ParseResult, ParseResultView, Parser};
use crate::text::{blank, is_blank, owned};
use crate::validator::{validation_report, Validator};
use crate::validation::{NumberFacts, NumberReading};

verus! {

/// The lexer's state at the start of a query.
pub open spec fn start_state() -> LexState {
    LexState { pos: 0, line: 1, col: 1, in_comment: false }
}

/// The report on the query `q`: its tokens, the comments left out, parsed into a
/// query, then validated; the parser's warnings follow the validator's. The first
/// lexer or parser error stops it.
pub open spec fn lint_spec(q: Seq<char>, numbers: Seq<(Seq<char>, NumberReading)>) -> Result<LintReportView, LintErrorView> {
    match tokenize_spec(q, start_state()) {
        Err(e) => Err(e),
        Ok(ts) => match comment_filter(ts) {
            Err(e) => Err(e),
            Ok(filtered) => match parse_query_spec(filtered, 0, Seq::empty()) {
                Err(e) => Err(e),
                Ok(parsed) => {
                    let report = validation_report(parsed.query, numbers);
                    Ok(LintReportView { errors: report.errors, warnings: report.warnings + parsed.warnings })
                },
            },
        },
    }
}

/// The result of analysing a query: whether it is valid, with its errors and
/// warnings; an error that stops the linter is the only error.
pub struct AnalysisResult {
    pub is_valid: bool,
    pub errors: Vec<LintError>,
    pub warnings: Vec<LintWarning>,
    pub query: String,
}

pub struct AnalysisView {
    pub is_valid: bool,
    pub errors: Seq<LintErrorView>,
    pub warnings: Seq<LintWarningView>,
    pub query: Seq<char>,
}

impl View for AnalysisResult {
    type V = AnalysisView;

    open spec fn view(&self) -> AnalysisView {
        AnalysisView { is_valid: self.is_valid, errors: errors_view(self.errors@), warnings: warnings_view(self.warnings@), query: self.query@ }
    }
}

/// The analysis of the query `q`.
pub open spec fn analysis_spec(q: Seq<char>, numbers: Seq<(Seq<char>, NumberReading)>) -> AnalysisView {
    match lint_spec(q, numbers) {
        Ok(report) => AnalysisView { is_valid: report.errors.len() == 0, errors: report.errors, warnings: report.warnings, query: q },
        Err(e) => AnalysisView { is_valid: false, errors: seq![e], warnings: Seq::empty(), query: q },
    }
}

/// The analysis of the query `q`, a blank query being valid with nothing to report.
pub open spec fn analysis_skipping_empty_spec(q: Seq<char>, numbers: Seq<(Seq<char>, NumberReading)>) -> AnalysisView {
    if blank(q) {
        AnalysisView { is_valid: true, errors: Seq::empty(), warnings: Seq::empty(), query: q }
    } else {
        analysis_spec(q, numbers)
    }
}

/// A linter for Brandwatch boolean queries.
pub struct BrandwatchLinter {
    validator: Validator,
}

impl BrandwatchLinter {
    pub fn new() -> (r: Self) {
        BrandwatchLinter { validator: Validator::new() }
    }

    /// The errors and warnings in `query`, or the lexer or parser error that stops it.
    pub fn lint(&mut self, query: &str, numbers: &NumberFacts) -> (r: LintResult<LintReport>)
        requires
            input_fits(query@.len() as int),
        ensures
            match lint_spec(query@, numbers@) {
                Ok(v) => r matches Ok(x) && x@ == v,
                Err(e) => r matches Err(x) && x@ == e,
            },
    {
        let mut lexer = Lexer::new(query);
        let tokens = match lexer.tokenize() {
            Ok(t) => t,
            Err(e) => return Err(e),
        };
        proof {
            let ts = tokens_view(tokens@);
            assert(ts[ts.len() - 1].kind is Eof);
        }
        let mut parser = match Parser::new(tokens) {
            Ok(p) => p,
            Err(e) => return Err(e),
        };
        let parse_result = match parser.parse() {
            Ok(r) => r,
            Err(e) => return Err(e),
        };
        let crate::parser::ParseResult { query: parsed, warnings } = parse_result;
        let mut report = self.validator.validate(&parsed, numbers);
        let ghost before = report.warnings@;
        let mut warnings = warnings;
        let ghost added = warnings@;
        report.warnings.append(&mut warnings);
        assert(report@.warnings =~= warnings_view(before) + warnings_view(added));
        Ok(report)
    }

    /// Whether `query` is valid, with its errors and warnings.
    pub fn analyze(&mut self, query: &str, numbers: &NumberFacts) -> (r: AnalysisResult)
        requires
            input_fits(query@.len() as int),
        ensures
            r@ == analysis_spec(query@, numbers@),
    {
        match self.lint(query, numbers) {
            Ok(report) => {
                let is_valid = !report.has_errors();
                let LintReport { errors, warnings } = report;
                AnalysisResult { is_valid, errors, warnings, query: owned(query) }
            },
            Err(error) => {
                let mut errors = Vec::new();
                errors.push(error);
                let r = AnalysisResult { is_valid: false, errors, warnings: Vec::new(), query: owned(query) };
                assert(r@.errors =~= seq![error@]);
                assert(r@.warnings =~= Seq::<LintWarningView>::empty());
                r
            },
        }
    }

    /// The analysis of `query`; a blank query is valid, with nothing to report.
    pub fn analyze_and_skip_empty(&mut self, query: &str, numbers: &NumberFacts) -> (r: AnalysisResult)
        requires
            input_fits(query@.len() as int),
        ensures
            r@ == analysis_skipping_empty_spec(query@, numbers@),
    {
        if is_blank(query) {
            let r = AnalysisResult { is_valid: true, errors: Vec::new(), warnings: Vec::new(), query: owned(query) };
            assert(r@.errors =~= Seq::<LintErrorView>::empty());
            assert(r@.warnings =~= Seq::<LintWarningView>::empty());
            return r;
        }
        self.analyze(query, numbers)
    }
}

impl Default for BrandwatchLinter {
    fn default() -> (r: Self) {
        BrandwatchLinter::new()
    }
}

/// The errors and warnings in `query`, from a new linter.
pub fn lint_query(query: &str, numbers: &NumberFacts) -> (r: LintResult<LintReport>)
    requires
        input_fits(query@.len() as int),
    ensures
        match lint_spec(query@, numbers@) {
            Ok(v) => r matches Ok(x) && x@ == v,
            Err(e) => r matches Err(x) && x@ == e,
        },
{
    let mut linter = BrandwatchLinter::new();
    linter.lint(query, numbers)
}

/// The analysis of `query`, from a new linter.
pub fn analyze_query(query: &str, numbers: &NumberFacts) -> (r: AnalysisResult)
    requires
        input_fits(query@.len() as int),
    ensures
        r@ == analysis_spec(query@, numbers@),
{
    let mut linter = BrandwatchLinter::new();
    linter.analyze(query, numbers)
}

/// The texts of the word and number tokens of `ts`, in order.
pub open spec fn token_values(ts: Seq<TokenView>) -> Seq<Seq<char>>
    decreases ts.len(),
{
    if ts.len() == 0 {
        Seq::empty()
    } else {
        token_values(ts.drop_last()) + match ts.last().kind {
            TokenTypeView::Word(w) => seq![w],
            TokenTypeView::Number(n) => seq![n],
            _ => Seq::empty(),
        }
    }
}

/// The texts of the query that the rules may read as numbers: those of its word
/// and number tokens, in order; none when the query does not split into tokens.
pub open spec fn value_texts_spec(q: Seq<char>) -> Seq<Seq<char>> {
    match tokenize_spec(q, start_state()) {
        Ok(ts) => token_values(ts),
        Err(_) => Seq::empty(),
    }
}

/// The texts of `query` that the rules may read as numbers (see `NumberFacts`):
/// those of its word and number tokens.
pub fn value_texts(query: &str) -> (r: Vec<String>)
    requires
        input_fits(query@.len() as int),
    ensures
        r@.map_values(|t: String| t@) == value_texts_spec(query@),
{
    let mut lexer = Lexer::new(query);
    let mut out: Vec<String> = Vec::new();
    let tokens = match lexer.tokenize() {
        Ok(t) => t,
        Err(_) => {
            assert(out@.map_values(|t: String| t@) =~= Seq::<Seq<char>>::empty());
            return out;
        },
    };
    let ghost ts = tokens_view(tokens@);
    let mut i: usize = 0;
    assert(ts.take(0) =~= Seq::<TokenView>::empty());
    assert(out@.map_values(|t: String| t@) =~= Seq::<Seq<char>>::empty());
    while i < tokens.len()
        invariant
            ts == tokens_view(tokens@),
            0 <= i <= tokens@.len(),
            out@.map_values(|t: String| t@) == token_values(ts.take(i as int)),
        decreases tokens@.len() - i,
    {
        let ghost before = out@;
        assert(ts.take(i + 1).drop_last() =~= ts.take(i as int));
        assert(ts.take(i + 1).last() == tokens@[i as int]@);
        match &tokens[i].token_type {
            TokenType::Word(w) => {
                out.push(owned(w.as_str()));
            },
            TokenType::Number(n) => {
                out.push(owned(n.as_str()));
            },
            _ => {},
        }
        assert(out@.map_values(|t: String| t@) =~= token_values(ts.take(i + 1)));
        i += 1;
    }
    assert(ts.take(tokens@.len() as int) =~= ts);
    out
}

/// The query `q` parsed, with the parser's warnings: its tokens with the comments
/// left out, parsed; the first lexer or parser error stops it.
pub open spec fn parse_spec(q: Seq<char>) -> Result<ParseResultView, LintErrorView> {
    match tokenize_spec(q, start_state()) {
        Err(e) => Err(e),
        Ok(ts) => match comment_filter(ts) {
            Err(e) => Err(e),
            Ok(filtered) => parse_query_spec(filtered, 0, Seq::empty()),
        },
    }
}

/// The query `query` parsed, with the parser's warnings, or the lexer or parser
/// error that stops it.
pub fn parse_query(query: &str) -> (r: LintResult<ParseResult>)
    requires
        input_fits(query@.len() as int),
    ensures
        match parse_spec(query@) {
            Ok(v) => r matches Ok(x) && x@ == v,
            Err(e) => r matches Err(x) && x@ == e,
        },
{
    let mut lexer = Lexer::new(query);
    let tokens = match lexer.tokenize() {
        Ok(t) => t,
        Err(e) => return Err(e),
    };
    proof {
        let ts = tokens_view(tokens@);
        assert(ts[ts.len() - 1].kind is Eof);
    }
    let mut parser = match Parser::new(tokens) {
        Ok(p) => p,
        Err(e) => return Err(e),
    };
    parser.parse()
}

/// An analysis is valid exactly when it holds no error; when the linter stops on
/// an error, that error is the only one and there is no warning; otherwise the
/// analysis holds the report's errors and warnings.
pub proof fn law_valid_iff_no_errors(q: Seq<char>, numbers: Seq<(Seq<char>, NumberReading)>)
    ensures
        analysis_spec(q, numbers).is_valid <==> analysis_spec(q, numbers).errors.len() == 0,
        analysis_spec(q, numbers).query == q,
        match lint_spec(q, numbers) {
            Ok(report) => analysis_spec(q, numbers).errors == report.errors && analysis_spec(q, numbers).warnings == report.warnings,
            Err(e) => analysis_spec(q, numbers).errors == seq![e] && analysis_spec(q, numbers).warnings.len() == 0,
        },
{
}

/// Skipping empty queries changes only blank ones: they are valid with nothing
/// to report, and any other query is analysed as usual.
pub proof fn law_skip_empty_only_blank(q: Seq<char>, numbers: Seq<(Seq<char>, NumberReading)>)
    ensures
        blank(q) ==> analysis_skipping_empty_spec(q, numbers).is_valid && analysis_skipping_empty_spec(q, numbers).errors.len() == 0
            && analysis_skipping_empty_spec(q, numbers).warnings.len() == 0,
        !blank(q) ==> analysis_skipping_empty_spec(q, numbers) == analysis_spec(q, numbers),
{
}

} // verus!
