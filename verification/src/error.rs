//! Positions, spans, lint errors and warnings, and the report that collects them.
use vstd::prelude::*;
use crate::text::{concat2, concat3, owned, push_str};

verus! {

/// A place in the query: 1-based line and column, and the 0-based character offset.
#[derive(Clone, Copy, Debug, PartialEq, Eq, Structural)]
pub struct Position {
    pub line: usize,
    pub column: usize,
    pub offset: usize,
}

impl Position {
    pub fn new(line: usize, column: usize, offset: usize) -> (r: Self)
        ensures
            r == (Position { line, column, offset }),
    {
        Position { line, column, offset }
    }
}

/// A range of the query, from `start` (inclusive) to `end` (exclusive).
#[derive(Clone, Copy, Debug, PartialEq, Eq, Structural)]
pub struct Span {
    pub start: Position,
    pub end: Position,
}

/// The span that covers the one character at `pos`.
pub open spec fn char_span(pos: Position) -> Span {
    Span {
        start: pos,
        end: Position { line: pos.line, column: (pos.column + 1) as usize, offset: (pos.offset + 1) as usize },
    }
}

impl Span {
    pub fn new(start: Position, end: Position) -> (r: Self)
        ensures
            r == (Span { start, end }),
    {
        Span { start, end }
    }

    /// The empty span at `pos`.
    pub fn single(pos: Position) -> (r: Self)
        ensures
            r == (Span { start: pos, end: pos }),
    {
        Span { start: pos, end: pos }
    }

    /// The span of the one character at `pos`.
    pub fn single_character(pos: Position) -> (r: Self)
        requires
            pos.column < usize::MAX,
            pos.offset < usize::MAX,
        ensures
            r == char_span(pos),
    {
        Span { start: pos, end: Position::new(pos.line, pos.column + 1, pos.offset + 1) }
    }
}

/// An error that makes a query invalid.
#[derive(Clone, Debug, PartialEq)]
pub enum LintError {
    LexerError { span: Span, message: String },
    ParserError { span: Span, message: String },
    ValidationError { span: Span, message: String },
    InvalidWildcardPlacement { span: Span, message: String },
    InvalidProximityOperator { span: Span, message: String },
    InvalidFieldOperator { span: Span, message: String },
    InvalidFieldOperatorSpacing { span: Span, message: String },
    UnexpectedToken { span: Span, token: String },
    ExpectedToken { span: Span, expected: String, found: String },
    FieldValidationError { span: Span, message: String },
    ProximityOperatorError { span: Span, message: String },
    InvalidFieldRange { span: Span, message: String },
    OperatorMixingError { span: Span, message: String },
    PureNegativeQueryError { span: Span, message: String },
}

/// The mathematical value of a `LintError`: its strings as character sequences.
pub enum LintErrorView {
    LexerError { span: Span, message: Seq<char> },
    ParserError { span: Span, message: Seq<char> },
    ValidationError { span: Span, message: Seq<char> },
    InvalidWildcardPlacement { span: Span, message: Seq<char> },
    InvalidProximityOperator { span: Span, message: Seq<char> },
    InvalidFieldOperator { span: Span, message: Seq<char> },
    InvalidFieldOperatorSpacing { span: Span, message: Seq<char> },
    UnexpectedToken { span: Span, token: Seq<char> },
    ExpectedToken { span: Span, expected: Seq<char>, found: Seq<char> },
    FieldValidationError { span: Span, message: Seq<char> },
    ProximityOperatorError { span: Span, message: Seq<char> },
    InvalidFieldRange { span: Span, message: Seq<char> },
    OperatorMixingError { span: Span, message: Seq<char> },
    PureNegativeQueryError { span: Span, message: Seq<char> },
}

impl View for LintError {
    type V = LintErrorView;

    open spec fn view(&self) -> LintErrorView {
        match self {
            LintError::LexerError { span, message } => LintErrorView::LexerError { span: *span, message: message@ },
            LintError::ParserError { span, message } => LintErrorView::ParserError { span: *span, message: message@ },
            LintError::ValidationError { span, message } => LintErrorView::ValidationError { span: *span, message: message@ },
            LintError::InvalidWildcardPlacement { span, message } => LintErrorView::InvalidWildcardPlacement { span: *span, message: message@ },
            LintError::InvalidProximityOperator { span, message } => LintErrorView::InvalidProximityOperator { span: *span, message: message@ },
            LintError::InvalidFieldOperator { span, message } => LintErrorView::InvalidFieldOperator { span: *span, message: message@ },
            LintError::InvalidFieldOperatorSpacing { span, message } => LintErrorView::InvalidFieldOperatorSpacing { span: *span, message: message@ },
            LintError::UnexpectedToken { span, token } => LintErrorView::UnexpectedToken { span: *span, token: token@ },
            LintError::ExpectedToken { span, expected, found } => LintErrorView::ExpectedToken { span: *span, expected: expected@, found: found@ },
            LintError::FieldValidationError { span, message } => LintErrorView::FieldValidationError { span: *span, message: message@ },
            LintError::ProximityOperatorError { span, message } => LintErrorView::ProximityOperatorError { span: *span, message: message@ },
            LintError::InvalidFieldRange { span, message } => LintErrorView::InvalidFieldRange { span: *span, message: message@ },
            LintError::OperatorMixingError { span, message } => LintErrorView::OperatorMixingError { span: *span, message: message@ },
            LintError::PureNegativeQueryError { span, message } => LintErrorView::PureNegativeQueryError { span: *span, message: message@ },
        }
    }
}

impl LintErrorView {
    pub open spec fn span(self) -> Span {
        match self {
            LintErrorView::LexerError { span, .. } => span,
            LintErrorView::ParserError { span, .. } => span,
            LintErrorView::ValidationError { span, .. } => span,
            LintErrorView::InvalidWildcardPlacement { span, .. } => span,
            LintErrorView::InvalidProximityOperator { span, .. } => span,
            LintErrorView::InvalidFieldOperator { span, .. } => span,
            LintErrorView::InvalidFieldOperatorSpacing { span, .. } => span,
            LintErrorView::UnexpectedToken { span, .. } => span,
            LintErrorView::ExpectedToken { span, .. } => span,
            LintErrorView::FieldValidationError { span, .. } => span,
            LintErrorView::ProximityOperatorError { span, .. } => span,
            LintErrorView::InvalidFieldRange { span, .. } => span,
            LintErrorView::OperatorMixingError { span, .. } => span,
            LintErrorView::PureNegativeQueryError { span, .. } => span,
        }
    }

    /// The code printed for an error of this kind.
    pub open spec fn code(self) -> Seq<char> {
        match self {
            LintErrorView::LexerError { .. } => "E001"@,
            LintErrorView::ParserError { .. } => "E002"@,
            LintErrorView::ValidationError { .. } => "E003"@,
            LintErrorView::InvalidWildcardPlacement { .. } => "E004"@,
            LintErrorView::InvalidProximityOperator { .. } => "E005"@,
            LintErrorView::InvalidFieldOperator { .. } => "E006"@,
            LintErrorView::InvalidFieldOperatorSpacing { .. } => "E001"@,
            LintErrorView::UnexpectedToken { .. } => "E007"@,
            LintErrorView::ExpectedToken { .. } => "E008"@,
            LintErrorView::FieldValidationError { .. } => "E009"@,
            LintErrorView::ProximityOperatorError { .. } => "E010"@,
            LintErrorView::InvalidFieldRange { .. } => "E011"@,
            LintErrorView::OperatorMixingError { .. } => "E012"@,
            LintErrorView::PureNegativeQueryError { .. } => "E013"@,
        }
    }

    /// The text of the error as the linter displays it.
    pub open spec fn text(self) -> Seq<char> {
        match self {
            LintErrorView::InvalidWildcardPlacement { message, .. } => "Invalid wildcard placement: "@ + message,
            LintErrorView::InvalidProximityOperator { message, .. } => "Invalid proximity operator syntax: "@ + message,
            LintErrorView::InvalidFieldOperator { message, .. } => "Invalid field operator syntax: "@ + message,
            LintErrorView::UnexpectedToken { token, .. } => "Unexpected token '"@ + token + "'"@,
            LintErrorView::ExpectedToken { expected, found, .. } => "Expected '"@ + expected + "' but found '"@ + found + "'"@,
            LintErrorView::InvalidFieldRange { message, .. } => "Invalid field range: "@ + message,
            LintErrorView::LexerError { message, .. } => message,
            LintErrorView::ParserError { message, .. } => message,
            LintErrorView::ValidationError { message, .. } => message,
            LintErrorView::InvalidFieldOperatorSpacing { message, .. } => message,
            LintErrorView::FieldValidationError { message, .. } => message,
            LintErrorView::ProximityOperatorError { message, .. } => message,
            LintErrorView::OperatorMixingError { message, .. } => message,
            LintErrorView::PureNegativeQueryError { message, .. } => message,
        }
    }
}

impl LintError {
    pub fn span(&self) -> (r: &Span)
        ensures
            *r == self@.span(),
    {
        match self {
            LintError::LexerError { span, .. } => span,
            LintError::ParserError { span, .. } => span,
            LintError::ValidationError { span, .. } => span,
            LintError::InvalidWildcardPlacement { span, .. } => span,
            LintError::InvalidProximityOperator { span, .. } => span,
            LintError::InvalidFieldOperator { span, .. } => span,
            LintError::InvalidFieldOperatorSpacing { span, .. } => span,
            LintError::UnexpectedToken { span, .. } => span,
            LintError::ExpectedToken { span, .. } => span,
            LintError::FieldValidationError { span, .. } => span,
            LintError::ProximityOperatorError { span, .. } => span,
            LintError::InvalidFieldRange { span, .. } => span,
            LintError::OperatorMixingError { span, .. } => span,
            LintError::PureNegativeQueryError { span, .. } => span,
        }
    }

    pub fn code(&self) -> (r: &'static str)
        ensures
            r@ == self@.code(),
    {
        match self {
            LintError::LexerError { .. } => "E001",
            LintError::ParserError { .. } => "E002",
            LintError::ValidationError { .. } => "E003",
            LintError::InvalidWildcardPlacement { .. } => "E004",
            LintError::InvalidProximityOperator { .. } => "E005",
            LintError::InvalidFieldOperator { .. } => "E006",
            LintError::InvalidFieldOperatorSpacing { .. } => "E001",
            LintError::UnexpectedToken { .. } => "E007",
            LintError::ExpectedToken { .. } => "E008",
            LintError::FieldValidationError { .. } => "E009",
            LintError::ProximityOperatorError { .. } => "E010",
            LintError::InvalidFieldRange { .. } => "E011",
            LintError::OperatorMixingError { .. } => "E012",
            LintError::PureNegativeQueryError { .. } => "E013",
        }
    }

    /// The text of the error as the linter displays it.
    pub fn message(&self) -> (r: String)
        ensures
            r@ == self@.text(),
    {
        match self {
            LintError::InvalidWildcardPlacement { message, .. } => concat2("Invalid wildcard placement: ", message.as_str()),
            LintError::InvalidProximityOperator { message, .. } => concat2("Invalid proximity operator syntax: ", message.as_str()),
            LintError::InvalidFieldOperator { message, .. } => concat2("Invalid field operator syntax: ", message.as_str()),
            LintError::UnexpectedToken { token, .. } => concat3("Unexpected token '", token.as_str(), "'"),
            LintError::ExpectedToken { expected, found, .. } => {
                let mut s = concat3("Expected '", expected.as_str(), "' but found '");
                push_str(&mut s, found.as_str());
                push_str(&mut s, "'");
                s
            },
            LintError::InvalidFieldRange { message, .. } => concat2("Invalid field range: ", message.as_str()),
            LintError::LexerError { message, .. } => owned(message.as_str()),
            LintError::ParserError { message, .. } => owned(message.as_str()),
            LintError::ValidationError { message, .. } => owned(message.as_str()),
            LintError::InvalidFieldOperatorSpacing { message, .. } => owned(message.as_str()),
            LintError::FieldValidationError { message, .. } => owned(message.as_str()),
            LintError::ProximityOperatorError { message, .. } => owned(message.as_str()),
            LintError::OperatorMixingError { message, .. } => owned(message.as_str()),
            LintError::PureNegativeQueryError { message, .. } => owned(message.as_str()),
        }
    }
}

/// A finding that does not make the query invalid.
#[derive(Clone, Debug, PartialEq)]
pub enum LintWarning {
    PotentialTypo { span: Span, message: String },
    PerformanceWarning { span: Span, message: String },
}

pub enum LintWarningView {
    PotentialTypo { span: Span, message: Seq<char> },
    PerformanceWarning { span: Span, message: Seq<char> },
}

impl View for LintWarning {
    type V = LintWarningView;

    open spec fn view(&self) -> LintWarningView {
        match self {
            LintWarning::PotentialTypo { span, message } => LintWarningView::PotentialTypo { span: *span, message: message@ },
            LintWarning::PerformanceWarning { span, message } => LintWarningView::PerformanceWarning { span: *span, message: message@ },
        }
    }
}

impl LintWarningView {
    pub open spec fn span(self) -> Span {
        match self {
            LintWarningView::PotentialTypo { span, .. } => span,
            LintWarningView::PerformanceWarning { span, .. } => span,
        }
    }

    pub open spec fn code(self) -> Seq<char> {
        match self {
            LintWarningView::PotentialTypo { .. } => "W001"@,
            LintWarningView::PerformanceWarning { .. } => "W002"@,
        }
    }

    pub open spec fn text(self) -> Seq<char> {
        match self {
            LintWarningView::PotentialTypo { message, .. } => "Potential typo: "@ + message,
            LintWarningView::PerformanceWarning { message, .. } => "Performance warning: "@ + message,
        }
    }
}

impl LintWarning {
    pub fn code(&self) -> (r: &'static str)
        ensures
            r@ == self@.code(),
    {
        match self {
            LintWarning::PotentialTypo { .. } => "W001",
            LintWarning::PerformanceWarning { .. } => "W002",
        }
    }

    pub fn span(&self) -> (r: &Span)
        ensures
            *r == self@.span(),
    {
        match self {
            LintWarning::PotentialTypo { span, .. } => span,
            LintWarning::PerformanceWarning { span, .. } => span,
        }
    }

    /// The text of the warning as the linter displays it.
    pub fn message(&self) -> (r: String)
        ensures
            r@ == self@.text(),
    {
        match self {
            LintWarning::PotentialTypo { message, .. } => concat2("Potential typo: ", message.as_str()),
            LintWarning::PerformanceWarning { message, .. } => concat2("Performance warning: ", message.as_str()),
        }
    }
}

pub type LintResult<T> = Result<T, LintError>;

pub open spec fn errors_view(v: Seq<LintError>) -> Seq<LintErrorView> {
    v.map_values(|e: LintError| e@)
}

pub open spec fn warnings_view(v: Seq<LintWarning>) -> Seq<LintWarningView> {
    v.map_values(|w: LintWarning| w@)
}

/// The errors and warnings found in a query.
#[derive(Clone, Debug, PartialEq)]
pub struct LintReport {
    pub errors: Vec<LintError>,
    pub warnings: Vec<LintWarning>,
}

pub struct LintReportView {
    pub errors: Seq<LintErrorView>,
    pub warnings: Seq<LintWarningView>,
}

impl View for LintReport {
    type V = LintReportView;

    open spec fn view(&self) -> LintReportView {
        LintReportView { errors: errors_view(self.errors@), warnings: warnings_view(self.warnings@) }
    }
}

impl Default for LintReport {
    /// An empty report.
    fn default() -> (r: Self)
        ensures
            r.errors@.len() == 0,
            r.warnings@.len() == 0,
    {
        LintReport::new()
    }
}

impl LintReport {
    pub fn new() -> (r: Self)
        ensures
            r.errors@.len() == 0,
            r.warnings@.len() == 0,
    {
        LintReport { errors: Vec::new(), warnings: Vec::new() }
    }

    pub fn add_error(&mut self, error: LintError)
        ensures
            final(self).errors@ == old(self).errors@.push(error),
            final(self).warnings@ == old(self).warnings@,
    {
        self.errors.push(error);
    }

    pub fn add_warning(&mut self, warning: LintWarning)
        ensures
            final(self).warnings@ == old(self).warnings@.push(warning),
            final(self).errors@ == old(self).errors@,
    {
        self.warnings.push(warning);
    }

    pub fn has_errors(&self) -> (r: bool)
        ensures
            r == (self.errors@.len() > 0),
    {
        self.errors.len() > 0
    }

    pub fn has_warnings(&self) -> (r: bool)
        ensures
            r == (self.warnings@.len() > 0),
    {
        self.warnings.len() > 0
    }

    pub fn is_clean(&self) -> (r: bool)
        ensures
            r == (self.errors@.len() == 0 && self.warnings@.len() == 0),
    {
        self.errors.len() == 0 && self.warnings.len() == 0
    }
}

} // verus!
