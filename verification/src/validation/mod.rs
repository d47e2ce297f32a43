//! The checks made on a parsed query: a rule looks at one expression at a time,
//! and the engine walks the tree and applies every rule to every node.
pub mod engine;
pub mod rules;

use vstd::prelude::*;
use crate::ast::{BooleanOperator, Expression, ExpressionView, FieldType, Term, TermView};
use crate::error::{errors_view, warnings_view, LintError, LintErrorView, LintWarning, LintWarningView};

verus! {

/// Where an expression stands in the query.
#[derive(Clone, Copy, Debug, PartialEq, Eq, Structural)]
pub struct ValidationContext {
    /// Whether the expression is inside parentheses.
    pub inside_group: bool,
    /// The boolean operator of which the expression is an operand.
    pub parent_operator: Option<BooleanOperator>,
    /// The field whose value the expression is.
    pub field_context: Option<FieldType>,
}

/// The context of the whole query.
pub open spec fn top_context() -> ValidationContext {
    ValidationContext { inside_group: false, parent_operator: None, field_context: None }
}

impl Default for ValidationContext {
    fn default() -> (r: Self)
        ensures
            r == top_context(),
    {
        ValidationContext { inside_group: false, parent_operator: None, field_context: None }
    }
}

/// The errors and warnings that a check finds.
pub struct ValidationResult {
    pub errors: Vec<LintError>,
    pub warnings: Vec<LintWarning>,
}

/// The errors and warnings that a check finds, as values.
pub struct Findings {
    pub errors: Seq<LintErrorView>,
    pub warnings: Seq<LintWarningView>,
}

impl View for ValidationResult {
    type V = Findings;

    open spec fn view(&self) -> Findings {
        Findings { errors: errors_view(self.errors@), warnings: warnings_view(self.warnings@) }
    }
}

pub open spec fn no_findings() -> Findings {
    Findings { errors: Seq::empty(), warnings: Seq::empty() }
}

pub open spec fn error_finding(e: LintErrorView) -> Findings {
    Findings { errors: seq![e], warnings: Seq::empty() }
}

pub open spec fn warning_finding(w: LintWarningView) -> Findings {
    Findings { errors: Seq::empty(), warnings: seq![w] }
}

/// The findings of `a` followed by those of `b`.
pub open spec fn join(a: Findings, b: Findings) -> Findings {
    Findings { errors: a.errors + b.errors, warnings: a.warnings + b.warnings }
}

impl Default for ValidationResult {
    fn default() -> (r: Self)
        ensures
            r@ == no_findings(),
    {
        ValidationResult::new()
    }
}

impl ValidationResult {
    pub fn new() -> (r: Self)
        ensures
            r@ == no_findings(),
    {
        let r = ValidationResult { errors: Vec::new(), warnings: Vec::new() };
        assert(r@.errors =~= Seq::<LintErrorView>::empty());
        assert(r@.warnings =~= Seq::<LintWarningView>::empty());
        r
    }

    pub fn with_error(error: LintError) -> (r: Self)
        ensures
            r@ == error_finding(error@),
    {
        let mut errors = Vec::new();
        errors.push(error);
        let r = ValidationResult { errors, warnings: Vec::new() };
        assert(r@.errors =~= seq![error@]);
        assert(r@.warnings =~= Seq::<LintWarningView>::empty());
        r
    }

    pub fn with_warning(warning: LintWarning) -> (r: Self)
        ensures
            r@ == warning_finding(warning@),
    {
        let mut warnings = Vec::new();
        warnings.push(warning);
        let r = ValidationResult { errors: Vec::new(), warnings };
        assert(r@.errors =~= Seq::<LintErrorView>::empty());
        assert(r@.warnings =~= seq![warning@]);
        r
    }

    /// Appends the findings of `other` to these.
    pub fn extend(&mut self, other: ValidationResult)
        ensures
            final(self)@ == join(old(self)@, other@),
    {
        let ValidationResult { errors, warnings } = other;
        append_errors(&mut self.errors, errors);
        append_warnings(&mut self.warnings, warnings);
    }
}

/// What reading a value written in a query as a floating-point number gives: whether
/// it reads as a number, whether that number lies within the latitudes (-90 to 90)
/// and within the longitudes (-180 to 180), whether it can be ordered against other
/// numbers (it is not NaN), and its place in that order among the values of the query.
#[derive(Clone, Copy, Debug, PartialEq, Eq, Structural)]
pub struct NumberReading {
    pub is_number: bool,
    pub within_latitude: bool,
    pub within_longitude: bool,
    pub ordered: bool,
    pub rank: u64,
}

/// The reading of a value that does not read as a number.
pub open spec fn not_a_number() -> NumberReading {
    NumberReading { is_number: false, within_latitude: false, within_longitude: false, ordered: false, rank: 0 }
}

/// How the values of a query read as floating-point numbers: a reading for each
/// value text. A text with no reading does not read as a number.
pub struct NumberFacts {
    pub readings: Vec<(String, NumberReading)>,
}

impl View for NumberFacts {
    type V = Seq<(Seq<char>, NumberReading)>;

    open spec fn view(&self) -> Seq<(Seq<char>, NumberReading)> {
        self.readings@.map_values(|r: (String, NumberReading)| (r.0@, r.1))
    }
}

/// The first reading of `text` in `readings`, or that it is no number.
pub open spec fn reading_of(readings: Seq<(Seq<char>, NumberReading)>, text: Seq<char>) -> NumberReading
    decreases readings.len(),
{
    if readings.len() == 0 {
        not_a_number()
    } else if readings[0].0 == text {
        readings[0].1
    } else {
        reading_of(readings.drop_first(), text)
    }
}

/// Whether `a` reads as a number above the number `b` reads as.
pub open spec fn reads_above(readings: Seq<(Seq<char>, NumberReading)>, a: Seq<char>, b: Seq<char>) -> bool {
    let x = reading_of(readings, a);
    let y = reading_of(readings, b);
    x.is_number && y.is_number && x.ordered && y.ordered && x.rank > y.rank
}

impl NumberFacts {
    /// No readings: no value reads as a number.
    pub fn new() -> (r: Self)
        ensures
            r@.len() == 0,
    {
        let r = NumberFacts { readings: Vec::new() };
        assert(r@ =~= Seq::<(Seq<char>, NumberReading)>::empty());
        r
    }

    /// The reading of `text`: see `reading_of`.
    pub fn reading(&self, text: &str) -> (r: NumberReading)
        ensures
            r == reading_of(self@, text@),
    {
        let ghost rs = self@;
        let mut i: usize = 0;
        assert(rs.skip(0) =~= rs);
        while i < self.readings.len()
            invariant
                rs == self@,
                0 <= i <= rs.len(),
                reading_of(rs, text@) == reading_of(rs.skip(i as int), text@),
            decreases rs.len() - i,
        {
            assert(rs.skip(i as int)[0] == rs[i as int]);
            assert(rs.skip(i as int).drop_first() =~= rs.skip(i + 1));
            if crate::text::str_eq(self.readings[i].0.as_str(), text) {
                return self.readings[i].1;
            }
            i += 1;
        }
        assert(rs.skip(i as int) =~= Seq::<(Seq<char>, NumberReading)>::empty());
        NumberReading { is_number: false, within_latitude: false, within_longitude: false, ordered: false, rank: 0 }
    }

    /// Whether `a` reads as a number above the number `b` reads as.
    pub fn above(&self, a: &str, b: &str) -> (r: bool)
        ensures
            r == reads_above(self@, a@, b@),
    {
        let x = self.reading(a);
        let y = self.reading(b);
        x.is_number && y.is_number && x.ordered && y.ordered && x.rank > y.rank
    }
}

/// Moves the errors of `more` to the end of `v`.
pub fn append_errors(v: &mut Vec<LintError>, more: Vec<LintError>)
    ensures
        errors_view(final(v)@) == errors_view(old(v)@) + errors_view(more@),
{
    let mut more = more;
    let ghost a = v@;
    let ghost b = more@;
    v.append(&mut more);
    assert(errors_view(v@) =~= errors_view(a) + errors_view(b));
}

/// Moves the warnings of `more` to the end of `v`.
pub fn append_warnings(v: &mut Vec<LintWarning>, more: Vec<LintWarning>)
    ensures
        warnings_view(final(v)@) == warnings_view(old(v)@) + warnings_view(more@),
{
    let mut more = more;
    let ghost a = v@;
    let ghost b = more@;
    v.append(&mut more);
    assert(warnings_view(v@) =~= warnings_view(a) + warnings_view(b));
}

/// A check on single expressions of a query.
pub trait ValidationRule {
    /// Whether the rule looks at `e`.
    spec fn applies_to(&self, e: ExpressionView) -> bool;

    /// What the rule finds in `e`, standing at `ctx`.
    spec fn findings(&self, e: ExpressionView, ctx: ValidationContext) -> Findings;

    /// The name the rule goes by.
    spec fn rule_name(&self) -> Seq<char>;

    /// The rule's name.
    fn name(&self) -> (r: &'static str)
        ensures
            r@ == self.rule_name();

    fn validate(&self, expr: &Expression, ctx: &ValidationContext) -> (r: ValidationResult)
        ensures
            r@ == self.findings(expr@, *ctx);

    fn can_validate(&self, expr: &Expression) -> (r: bool)
        ensures
            r == self.applies_to(expr@);
}

/// The text of `e` when it is a plain word.
pub open spec fn word_of(e: ExpressionView) -> Option<Seq<char>> {
    match e {
        ExpressionView::Term { term: TermView::Word { value }, .. } => Some(value),
        _ => None,
    }
}

/// The text of `e` when it is a plain word.
pub fn word_value(e: &Expression) -> (r: Option<&String>)
    ensures
        match r {
            Some(s) => word_of(e@) == Some(s@),
            None => word_of(e@) is None,
        },
{
    match e {
        Expression::Term { term: Term::Word { value }, .. } => Some(value),
        _ => None,
    }
}

} // verus!
