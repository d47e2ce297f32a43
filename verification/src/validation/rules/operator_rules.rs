//! Rules on how operators are combined.
use vstd::prelude::*;
use crate::ast::{boolean_operator_name, BooleanOperator, Expression, ExpressionView, ProximityOperator, Term, TermView};
use crate::error::{LintError, LintErrorView, LintWarning, LintWarningView, Span};
use crate::text::{char_whitespace, chars_of, concat2, is_whitespace, owned};
use crate::validation::{error_finding, no_findings, warning_finding, Findings, ValidationContext, ValidationResult, ValidationRule};

verus! {

/// Whether `e` is a boolean operation with the operator `op`.
pub open spec fn is_op(e: ExpressionView, op: BooleanOperator) -> bool {
    e matches ExpressionView::BooleanOp { operator, .. } && operator == op
}

pub open spec fn mixing_message() -> Seq<char> {
    "The AND and OR operators cannot be mixed in the same sub-query. Please use parentheses to disambiguate - e.g. vanilla AND (icecream OR cake)."@
}

/// AND and OR cannot be operands of each other without parentheses.
pub struct MixedAndOrRule;

impl ValidationRule for MixedAndOrRule {
    open spec fn applies_to(&self, e: ExpressionView) -> bool {
        e matches ExpressionView::BooleanOp { operator, .. } && (operator == BooleanOperator::And || operator == BooleanOperator::Or)
    }

    open spec fn findings(&self, e: ExpressionView, ctx: ValidationContext) -> Findings {
        match e {
            ExpressionView::BooleanOp { operator, left, right: Some(r), span } => {
                let other = if operator == BooleanOperator::And { BooleanOperator::Or } else { BooleanOperator::And };
                if (operator == BooleanOperator::And || operator == BooleanOperator::Or) && (is_op(*r, other) || is_op(*left, other)) {
                    error_finding(LintErrorView::OperatorMixingError { span, message: mixing_message() })
                } else {
                    no_findings()
                }
            },
            _ => no_findings(),
        }
    }

    open spec fn rule_name(&self) -> Seq<char> {
        "mixed-and-or"@
    }

    fn name(&self) -> &'static str {
        "mixed-and-or"
    }

    fn validate(&self, expr: &Expression, ctx: &ValidationContext) -> (r: ValidationResult) {
        if let Expression::BooleanOp { operator, left, right: Some(right_expr), span } = expr {
            let mixed = match operator {
                BooleanOperator::And => self.contains_or_at_top_level(&**right_expr) || self.contains_or_at_top_level(&**left),
                BooleanOperator::Or => self.contains_and_at_top_level(&**right_expr) || self.contains_and_at_top_level(&**left),
                BooleanOperator::Not => false,
            };
            if mixed {
                return ValidationResult::with_error(LintError::OperatorMixingError {
                    span: *span,
                    message: owned("The AND and OR operators cannot be mixed in the same sub-query. Please use parentheses to disambiguate - e.g. vanilla AND (icecream OR cake)."),
                });
            }
        }
        ValidationResult::new()
    }

    fn can_validate(&self, expr: &Expression) -> (r: bool) {
        match expr {
            Expression::BooleanOp { operator, .. } => match operator {
                BooleanOperator::And => true,
                BooleanOperator::Or => true,
                BooleanOperator::Not => false,
            },
            _ => false,
        }
    }
}

impl MixedAndOrRule {
    fn contains_and_at_top_level(&self, expr: &Expression) -> (r: bool)
        ensures
            r == is_op(expr@, BooleanOperator::And),
    {
        match expr {
            Expression::BooleanOp { operator: BooleanOperator::And, .. } => true,
            _ => false,
        }
    }

    fn contains_or_at_top_level(&self, expr: &Expression) -> (r: bool)
        ensures
            r == is_op(expr@, BooleanOperator::Or),
    {
        match expr {
            Expression::BooleanOp { operator: BooleanOperator::Or, .. } => true,
            _ => false,
        }
    }
}

/// Whether `e` is a `NEAR/n` or `NEAR/nf` proximity, whose operands are two.
pub open spec fn is_binary_near(e: ExpressionView) -> bool {
    e matches ExpressionView::Proximity { operator, .. } && !(operator is Proximity)
}

pub open spec fn near_and_message() -> Seq<char> {
    "The AND operator cannot be used within the NEAR operator. Either remove this operator or disambiguate with parenthesis, e.g. (vanilla NEAR/5 ice-cream) AND cake."@
}

pub open spec fn near_or_message() -> Seq<char> {
    "Please use parentheses for disambiguation when using the OR or NEAR operators with another NEAR operator - e.g. (vanilla OR chocolate) NEAR/5 (ice-cream NEAR/5 cake)."@
}

/// Whether `e` is an AND or an OR.
pub open spec fn is_and_or(e: ExpressionView) -> bool {
    is_op(e, BooleanOperator::Or) || is_op(e, BooleanOperator::And)
}

/// Whether one of `terms` is an AND or an OR.
pub open spec fn has_and_or_operand(terms: Seq<ExpressionView>) -> bool {
    exists|i: int| 0 <= i < terms.len() && #[trigger] is_and_or(terms[i])
}

/// NEAR cannot be mixed with AND or OR without parentheses: a `NEAR/n` operand of
/// AND, a proximity operand of OR outside any group, and an AND or OR operand of a
/// proximity are errors.
pub struct MixedNearRule;

impl ValidationRule for MixedNearRule {
    open spec fn applies_to(&self, e: ExpressionView) -> bool {
        ||| e matches ExpressionView::BooleanOp { operator, .. } && (operator == BooleanOperator::And || operator == BooleanOperator::Or)
        ||| e is Proximity
    }

    open spec fn findings(&self, e: ExpressionView, ctx: ValidationContext) -> Findings {
        match e {
            ExpressionView::BooleanOp { operator, left, right: Some(r), span } => if operator == BooleanOperator::And
                && (is_binary_near(*left) || is_binary_near(*r)) {
                error_finding(LintErrorView::ProximityOperatorError { span, message: near_and_message() })
            } else if !ctx.inside_group && operator == BooleanOperator::Or && ((*r) is Proximity || (*left) is Proximity) {
                error_finding(LintErrorView::ProximityOperatorError { span, message: near_or_message() })
            } else {
                no_findings()
            },
            ExpressionView::Proximity { terms, span, .. } => if has_and_or_operand(terms) {
                error_finding(LintErrorView::ProximityOperatorError { span, message: near_or_message() })
            } else {
                no_findings()
            },
            _ => no_findings(),
        }
    }

    open spec fn rule_name(&self) -> Seq<char> {
        "mixed-near"@
    }

    fn name(&self) -> &'static str {
        "mixed-near"
    }

    fn validate(&self, expr: &Expression, ctx: &ValidationContext) -> (r: ValidationResult) {
        match expr {
            Expression::BooleanOp { operator, left, right: Some(right_expr), span } => {
                let is_and = match operator {
                    BooleanOperator::And => true,
                    _ => false,
                };
                let is_or = match operator {
                    BooleanOperator::Or => true,
                    _ => false,
                };
                if is_and && self.is_unparenthesized_near_and_mix(&**left, &**right_expr) {
                    return ValidationResult::with_error(LintError::ProximityOperatorError {
                        span: *span,
                        message: owned("The AND operator cannot be used within the NEAR operator. Either remove this operator or disambiguate with parenthesis, e.g. (vanilla NEAR/5 ice-cream) AND cake."),
                    });
                }
                if !ctx.inside_group && is_or && (self.contains_near_at_top_level(&**right_expr) || self.contains_near_at_top_level(&**left)) {
                    return ValidationResult::with_error(LintError::ProximityOperatorError {
                        span: *span,
                        message: owned("Please use parentheses for disambiguation when using the OR or NEAR operators with another NEAR operator - e.g. (vanilla OR chocolate) NEAR/5 (ice-cream NEAR/5 cake)."),
                    });
                }
                ValidationResult::new()
            },
            Expression::Proximity { operator, terms, span } => {
                let ghost tv = crate::ast::exprs_view(terms@);
                proof {
                    crate::ast::lemma_exprs_view(terms@);
                }
                assert(expr@ == ExpressionView::Proximity { operator: *operator, terms: tv, span: *span });
                let mut i: usize = 0;
                while i < terms.len()
                    invariant
                        0 <= i <= terms@.len(),
                        tv == crate::ast::exprs_view(terms@),
                        expr@ == (ExpressionView::Proximity { operator: *operator, terms: tv, span: *span }),
                        tv.len() == terms@.len(),
                        forall|k: int| 0 <= k < terms@.len() ==> #[trigger] tv[k] == terms@[k]@,
                        forall|k: int| 0 <= k < i ==> !#[trigger] is_and_or(tv[k]),
                    decreases terms@.len() - i,
                {
                    if self.contains_or_at_top_level(&terms[i]) || self.contains_and_at_top_level(&terms[i]) {
                        assert(is_and_or(tv[i as int]));
                        return ValidationResult::with_error(LintError::ProximityOperatorError {
                            span: *span,
                            message: owned("Please use parentheses for disambiguation when using the OR or NEAR operators with another NEAR operator - e.g. (vanilla OR chocolate) NEAR/5 (ice-cream NEAR/5 cake)."),
                        });
                    }
                    i += 1;
                }
                ValidationResult::new()
            },
            _ => ValidationResult::new(),
        }
    }

    fn can_validate(&self, expr: &Expression) -> (r: bool) {
        match expr {
            Expression::BooleanOp { operator, .. } => match operator {
                BooleanOperator::And => true,
                BooleanOperator::Or => true,
                BooleanOperator::Not => false,
            },
            Expression::Proximity { .. } => true,
            _ => false,
        }
    }
}

impl MixedNearRule {
    fn contains_and_at_top_level(&self, expr: &Expression) -> (r: bool)
        ensures
            r == is_op(expr@, BooleanOperator::And),
    {
        match expr {
            Expression::BooleanOp { operator: BooleanOperator::And, .. } => true,
            _ => false,
        }
    }

    fn contains_or_at_top_level(&self, expr: &Expression) -> (r: bool)
        ensures
            r == is_op(expr@, BooleanOperator::Or),
    {
        match expr {
            Expression::BooleanOp { operator: BooleanOperator::Or, .. } => true,
            _ => false,
        }
    }

    /// Whether `expr` is a proximity, not inside a group.
    fn contains_near_at_top_level(&self, expr: &Expression) -> (r: bool)
        ensures
            r == expr@ is Proximity,
    {
        match expr {
            Expression::Proximity { .. } => true,
            _ => false,
        }
    }

    /// Whether either operand of an AND is a `NEAR/n` proximity (a `~` proximity,
    /// of one operand, may be).
    fn is_unparenthesized_near_and_mix(&self, left: &Expression, right: &Expression) -> (r: bool)
        ensures
            r == (is_binary_near(left@) || is_binary_near(right@)),
    {
        self.contains_binary_near_at_top_level(left) || self.contains_binary_near_at_top_level(right)
    }

    fn contains_binary_near_at_top_level(&self, expr: &Expression) -> (r: bool)
        ensures
            r == is_binary_near(expr@),
    {
        match expr {
            Expression::Proximity { operator, .. } => match operator {
                ProximityOperator::Proximity { .. } => false,
                _ => true,
            },
            _ => false,
        }
    }
}

/// Whether the query excludes everything it names and includes nothing: a `NOT`
/// whose left side is itself purely negative, a leading `NOT`, an AND or OR of
/// purely negative operands, or a group around one.
pub open spec fn pure_negative(e: ExpressionView) -> bool
    decreases e,
{
    match e {
        ExpressionView::BooleanOp { operator, left, right, .. } => if operator == BooleanOperator::Not {
            match right {
                None => true,
                Some(_) => pure_negative(*left),
            }
        } else {
            pure_negative(*left) && match right {
                None => true,
                Some(r) => pure_negative(*r),
            }
        },
        ExpressionView::Group { expression, .. } => pure_negative(*expression),
        _ => false,
    }
}

/// A query must include something: this is checked on the whole query by the
/// validator, so the rule looks at no single expression.
pub struct PureNegativeRule;

impl ValidationRule for PureNegativeRule {
    open spec fn applies_to(&self, e: ExpressionView) -> bool {
        false
    }

    open spec fn findings(&self, e: ExpressionView, ctx: ValidationContext) -> Findings {
        no_findings()
    }

    open spec fn rule_name(&self) -> Seq<char> {
        "pure-negative"@
    }

    fn name(&self) -> &'static str {
        "pure-negative"
    }

    fn validate(&self, expr: &Expression, ctx: &ValidationContext) -> (r: ValidationResult) {
        ValidationResult::new()
    }

    fn can_validate(&self, expr: &Expression) -> (r: bool) {
        false
    }
}

impl PureNegativeRule {
    /// Whether the query `expr` excludes everything it names.
    pub fn is_pure_negative_query(&self, expr: &Expression) -> (r: bool)
        ensures
            r == pure_negative(expr@),
        decreases expr,
    {
        match expr {
            Expression::BooleanOp { operator, left, right, .. } => {
                match operator {
                    BooleanOperator::Not => match right {
                        None => true,
                        Some(_) => self.is_pure_negative_query(&**left),
                    },
                    _ => {
                        self.is_pure_negative_query(&**left) && match right {
                            None => true,
                            Some(r) => self.is_pure_negative_query(&**r),
                        }
                    },
                }
            },
            Expression::Group { expression, .. } => self.is_pure_negative_query(&**expression),
            _ => false,
        }
    }
}

/// AND and OR take two operands.
pub struct BinaryOperatorRule;

impl ValidationRule for BinaryOperatorRule {
    open spec fn applies_to(&self, e: ExpressionView) -> bool {
        e is BooleanOp
    }

    open spec fn findings(&self, e: ExpressionView, ctx: ValidationContext) -> Findings {
        match e {
            ExpressionView::BooleanOp { operator, right: None, span, .. } => if operator != BooleanOperator::Not {
                error_finding(LintErrorView::ValidationError { span, message: boolean_operator_name(operator) + " operator requires two operands"@ })
            } else {
                no_findings()
            },
            _ => no_findings(),
        }
    }

    open spec fn rule_name(&self) -> Seq<char> {
        "binary-operator"@
    }

    fn name(&self) -> &'static str {
        "binary-operator"
    }

    fn validate(&self, expr: &Expression, ctx: &ValidationContext) -> (r: ValidationResult) {
        if let Expression::BooleanOp { operator, right: None, span, .. } = expr {
            let is_not = match operator {
                BooleanOperator::Not => true,
                _ => false,
            };
            if !is_not {
                return ValidationResult::with_error(LintError::ValidationError {
                    span: *span,
                    message: concat2(operator.as_str(), " operator requires two operands"),
                });
            }
        }
        ValidationResult::new()
    }

    fn can_validate(&self, expr: &Expression) -> (r: bool) {
        match expr {
            Expression::BooleanOp { .. } => true,
            _ => false,
        }
    }
}

/// The number of words of `s` separated by white space (`str::split_whitespace`).
pub open spec fn word_count(s: Seq<char>) -> nat
    decreases s.len(),
{
    if s.len() == 0 {
        0
    } else {
        let starts = !char_whitespace(s.last()) && (s.len() == 1 || char_whitespace(s[s.len() - 2]));
        word_count(s.drop_last()) + if starts { 1nat } else { 0nat }
    }
}

/// The number of words of `s` separated by white space.
pub fn count_words(s: &str) -> (r: usize)
    ensures
        r == word_count(s@),
{
    let cs = chars_of(s);
    let mut count: usize = 0;
    let mut prev_space = true;
    let mut i: usize = 0;
    while i < cs.len()
        invariant
            0 <= i <= cs@.len(),
            cs@ == s@,
            count == word_count(cs@.take(i as int)),
            count <= i,
            prev_space == (i == 0 || char_whitespace(cs@[i - 1])),
        decreases cs@.len() - i,
    {
        let space = is_whitespace(cs[i]);
        assert(cs@.take(i + 1).drop_last() =~= cs@.take(i as int));
        if !space && prev_space {
            count += 1;
        }
        prev_space = space;
        i += 1;
    }
    assert(cs@.take(cs@.len() as int) =~= cs@);
    count
}

/// A `~` on a single word, or on a phrase of one word, is likely a mistake.
pub struct TildeUsageRule;

impl ValidationRule for TildeUsageRule {
    open spec fn applies_to(&self, e: ExpressionView) -> bool {
        e matches ExpressionView::Proximity { operator, .. } && operator is Proximity
    }

    open spec fn findings(&self, e: ExpressionView, ctx: ValidationContext) -> Findings {
        match e {
            ExpressionView::Proximity { operator: ProximityOperator::Proximity { .. }, terms, span } => if terms.len() > 0 {
                match terms[0] {
                    ExpressionView::Term { term: TermView::Word { .. }, .. } => warning_finding(LintWarningView::PotentialTypo {
                        span,
                        message: "Single term tilde may produce unexpected fuzzy matching results. Consider using quoted phrases for proximity: \"term1 term2\"~5"@,
                    }),
                    ExpressionView::Term { term: TermView::Phrase { value }, .. } => if word_count(value) == 1 {
                        warning_finding(LintWarningView::PotentialTypo {
                            span,
                            message: "Tilde operator on single quoted words has no effect. Use unquoted word or multi-word phrase."@,
                        })
                    } else {
                        no_findings()
                    },
                    _ => no_findings(),
                }
            } else {
                no_findings()
            },
            _ => no_findings(),
        }
    }

    open spec fn rule_name(&self) -> Seq<char> {
        "tilde-usage"@
    }

    fn name(&self) -> &'static str {
        "tilde-usage"
    }

    fn validate(&self, expr: &Expression, ctx: &ValidationContext) -> (r: ValidationResult) {
        if let Expression::Proximity { operator: ProximityOperator::Proximity { .. }, terms, span } = expr {
            proof {
                crate::ast::lemma_exprs_view(terms@);
            }
            if terms.len() > 0 {
                assert(crate::ast::exprs_view(terms@)[0] == terms@[0]@);
                match &terms[0] {
                    Expression::Term { term: Term::Word { .. }, .. } => {
                        return ValidationResult::with_warning(LintWarning::PotentialTypo {
                            span: *span,
                            message: owned("Single term tilde may produce unexpected fuzzy matching results. Consider using quoted phrases for proximity: \"term1 term2\"~5"),
                        });
                    },
                    Expression::Term { term: Term::Phrase { value }, .. } => {
                        if count_words(value.as_str()) == 1 {
                            return ValidationResult::with_warning(LintWarning::PotentialTypo {
                                span: *span,
                                message: owned("Tilde operator on single quoted words has no effect. Use unquoted word or multi-word phrase."),
                            });
                        }
                    },
                    _ => {},
                }
            }
        }
        ValidationResult::new()
    }

    fn can_validate(&self, expr: &Expression) -> (r: bool) {
        match expr {
            Expression::Proximity { operator: ProximityOperator::Proximity { .. }, .. } => true,
            _ => false,
        }
    }
}

} // verus!
