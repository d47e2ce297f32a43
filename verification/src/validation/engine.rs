//! Applies every rule to every expression of a query.
use vstd::prelude::*;
use crate::ast::{exprs_view, lemma_exprs_view, Expression, ExpressionView, Query, QueryView};
use crate::error::{errors_view, warnings_view, LintError, LintReport, LintReportView, LintWarning};
use crate::validation::rules::field_rules::{
    AuthorGenderFieldRule, CoordinateFieldRule, RangeFieldRule, BooleanFieldRule, EngagementTypeFieldRule, FollowerCountFieldRule, GuidFieldRule,
    LanguageFieldRule, MinuteOfDayFieldRule, RatingFieldRule, VerifiedTypeFieldRule,
};
use crate::validation::rules::operator_rules::{
    BinaryOperatorRule, MixedAndOrRule, MixedNearRule, PureNegativeRule, TildeUsageRule,
};
use crate::validation::rules::performance_rules::{ShortTermRule, WildcardPerformanceRule};
use crate::validation::{
    NumberFacts, NumberReading, append_errors, append_warnings, join, no_findings, top_context, Findings, ValidationContext, ValidationResult,
    ValidationRule,
};

verus! {

/// What `rule` finds in `e`, when it looks at `e`.
pub open spec fn apply<R: ValidationRule>(rule: R, e: ExpressionView, ctx: ValidationContext) -> Findings {
    if rule.applies_to(e) {
        rule.findings(e, ctx)
    } else {
        no_findings()
    }
}

/// What the rules find at the expression `e` itself, rule after rule, values
/// reading as numbers as `numbers` says.
pub open spec fn node_findings(e: ExpressionView, ctx: ValidationContext, numbers: Seq<(Seq<char>, NumberReading)>) -> Findings {
    let f = join(no_findings(), apply(RatingFieldRule, e, ctx));
    let f = join(f, CoordinateFieldRule.findings(e, numbers));
    let f = join(f, apply(LanguageFieldRule, e, ctx));
    let f = join(f, apply(AuthorGenderFieldRule, e, ctx));
    let f = join(f, apply(BooleanFieldRule, e, ctx));
    let f = join(f, apply(EngagementTypeFieldRule, e, ctx));
    let f = join(f, apply(VerifiedTypeFieldRule, e, ctx));
    let f = join(f, apply(MinuteOfDayFieldRule, e, ctx));
    let f = join(f, RangeFieldRule.findings(e, numbers));
    let f = join(f, apply(FollowerCountFieldRule, e, ctx));
    let f = join(f, apply(GuidFieldRule, e, ctx));
    let f = join(f, apply(MixedAndOrRule, e, ctx));
    let f = join(f, apply(MixedNearRule, e, ctx));
    let f = join(f, apply(PureNegativeRule, e, ctx));
    let f = join(f, apply(BinaryOperatorRule, e, ctx));
    let f = join(f, apply(TildeUsageRule, e, ctx));
    let f = join(f, apply(WildcardPerformanceRule, e, ctx));
    join(f, apply(ShortTermRule, e, ctx))
}

/// What the rules find in `e` and below it: first at `e`, then in its operands
/// from left to right. The operands of a boolean operator learn the operator, the
/// expression of a group learns that it is inside one, and the value of a field
/// learns the field.
pub open spec fn walk(e: ExpressionView, ctx: ValidationContext, numbers: Seq<(Seq<char>, NumberReading)>) -> Findings
    decreases e,
{
    let here = node_findings(e, ctx, numbers);
    match e {
        ExpressionView::BooleanOp { operator, left, right, .. } => {
            let child = ValidationContext { parent_operator: Some(operator), ..ctx };
            let l = join(here, walk(*left, child, numbers));
            match right {
                Some(r) => join(l, walk(*r, child, numbers)),
                None => l,
            }
        },
        ExpressionView::Group { expression, .. } => join(here, walk(*expression, ValidationContext { inside_group: true, ..ctx }, numbers)),
        ExpressionView::Proximity { terms, .. } => join(here, walk_all(terms, ctx, numbers)),
        ExpressionView::Field { field, value, .. } => join(here, walk(*value, ValidationContext { field_context: Some(field), ..ctx }, numbers)),
        _ => here,
    }
}

/// What the rules find in each of `terms`, in order.
pub open spec fn walk_all(terms: Seq<ExpressionView>, ctx: ValidationContext, numbers: Seq<(Seq<char>, NumberReading)>) -> Findings
    decreases terms,
{
    if terms.len() == 0 {
        no_findings()
    } else {
        proof {
            assert(terms.drop_last() =~= terms.subrange(0, terms.len() - 1));
        }
        join(walk_all(terms.drop_last(), ctx, numbers), walk(terms[terms.len() - 1], ctx, numbers))
    }
}

/// Applies the rules of the linter to every expression of a query.
pub struct ValidationEngine;

/// `errors` and `warnings` hold what they held, followed by the findings `f`.
pub open spec fn appended(
    errors: Seq<LintError>,
    warnings: Seq<LintWarning>,
    errors0: Seq<LintError>,
    warnings0: Seq<LintWarning>,
    f: Findings,
) -> bool {
    &&& errors_view(errors) == errors_view(errors0) + f.errors
    &&& warnings_view(warnings) == warnings_view(warnings0) + f.warnings
}

fn apply_rule<R: ValidationRule>(
    rule: &R,
    expr: &Expression,
    ctx: &ValidationContext,
    errors: &mut Vec<LintError>,
    warnings: &mut Vec<LintWarning>,
)
    ensures
        appended(final(errors)@, final(warnings)@, old(errors)@, old(warnings)@, apply(*rule, expr@, *ctx)),
{
    if rule.can_validate(expr) {
        let result = rule.validate(expr, ctx);
        let ValidationResult { errors: found_errors, warnings: found_warnings } = result;
        append_errors(errors, found_errors);
        append_warnings(warnings, found_warnings);
    } else {
        assert(errors_view(errors@) + Seq::empty() =~= errors_view(errors@));
        assert(warnings_view(warnings@) + Seq::empty() =~= warnings_view(warnings@));
    }
}

/// Appends the findings `result` to `errors` and `warnings`.
fn push_findings(result: ValidationResult, errors: &mut Vec<LintError>, warnings: &mut Vec<LintWarning>)
    ensures
        appended(final(errors)@, final(warnings)@, old(errors)@, old(warnings)@, result@),
{
    let ValidationResult { errors: found_errors, warnings: found_warnings } = result;
    append_errors(errors, found_errors);
    append_warnings(warnings, found_warnings);
}

proof fn lemma_appended_join(
    e2: Seq<LintError>,
    w2: Seq<LintWarning>,
    e1: Seq<LintError>,
    w1: Seq<LintWarning>,
    e0: Seq<LintError>,
    w0: Seq<LintWarning>,
    a: Findings,
    b: Findings,
)
    requires
        appended(e1, w1, e0, w0, a),
        appended(e2, w2, e1, w1, b),
    ensures
        appended(e2, w2, e0, w0, join(a, b)),
{
    assert(errors_view(e2) =~= errors_view(e0) + join(a, b).errors);
    assert(warnings_view(w2) =~= warnings_view(w0) + join(a, b).warnings);
}

impl ValidationEngine {
    pub fn new() -> (r: Self) {
        ValidationEngine
    }

    /// The findings of the rules in the whole query, the query's top expression
    /// standing in no group, operator or field.
    pub fn validate(&self, query: &Query, numbers: &NumberFacts) -> (r: LintReport)
        ensures
            r@ == (LintReportView {
                errors: walk(query@.expression, top_context(), numbers@).errors,
                warnings: walk(query@.expression, top_context(), numbers@).warnings,
            }),
    {
        let mut all_errors: Vec<LintError> = Vec::new();
        let mut all_warnings: Vec<LintWarning> = Vec::new();
        let ctx = ValidationContext::default();
        self.walk_expression(&query.expression, &ctx, numbers, &mut all_errors, &mut all_warnings);
        let report = LintReport { errors: all_errors, warnings: all_warnings };
        assert(report@.errors =~= walk(query@.expression, top_context(), numbers@).errors);
        assert(report@.warnings =~= walk(query@.expression, top_context(), numbers@).warnings);
        report
    }

    /// Applies every rule to `expr`, in order.
    fn apply_rules(
        &self,
        expr: &Expression,
        ctx: &ValidationContext,
        numbers: &NumberFacts,
        errors: &mut Vec<LintError>,
        warnings: &mut Vec<LintWarning>,
    )
        ensures
            appended(final(errors)@, final(warnings)@, old(errors)@, old(warnings)@, node_findings(expr@, *ctx, numbers@)),
    {
        let ghost e = expr@;
        let ghost c = *ctx;
        let ghost e0 = errors@;
        let ghost w0 = warnings@;
        assert(appended(errors@, warnings@, e0, w0, no_findings())) by {
            assert(errors_view(e0) + Seq::empty() =~= errors_view(e0));
            assert(warnings_view(w0) + Seq::empty() =~= warnings_view(w0));
        }
        let ghost mut acc = no_findings();
        let ghost mut e1 = errors@;
        let ghost mut w1 = warnings@;
        apply_rule(&RatingFieldRule, expr, ctx, errors, warnings);
        proof { lemma_appended_join(errors@, warnings@, e1, w1, e0, w0, acc, apply(RatingFieldRule, e, c)); acc = join(acc, apply(RatingFieldRule, e, c)); e1 = errors@; w1 = warnings@; }
        if CoordinateFieldRule.can_validate(expr) {
            push_findings(CoordinateFieldRule.validate(expr, ctx, numbers), errors, warnings);
        } else {
            push_findings(ValidationResult::new(), errors, warnings);
        }
        proof { lemma_appended_join(errors@, warnings@, e1, w1, e0, w0, acc, CoordinateFieldRule.findings(e, numbers@)); acc = join(acc, CoordinateFieldRule.findings(e, numbers@)); e1 = errors@; w1 = warnings@; }
        apply_rule(&LanguageFieldRule, expr, ctx, errors, warnings);
        proof { lemma_appended_join(errors@, warnings@, e1, w1, e0, w0, acc, apply(LanguageFieldRule, e, c)); acc = join(acc, apply(LanguageFieldRule, e, c)); e1 = errors@; w1 = warnings@; }
        apply_rule(&AuthorGenderFieldRule, expr, ctx, errors, warnings);
        proof { lemma_appended_join(errors@, warnings@, e1, w1, e0, w0, acc, apply(AuthorGenderFieldRule, e, c)); acc = join(acc, apply(AuthorGenderFieldRule, e, c)); e1 = errors@; w1 = warnings@; }
        apply_rule(&BooleanFieldRule, expr, ctx, errors, warnings);
        proof { lemma_appended_join(errors@, warnings@, e1, w1, e0, w0, acc, apply(BooleanFieldRule, e, c)); acc = join(acc, apply(BooleanFieldRule, e, c)); e1 = errors@; w1 = warnings@; }
        apply_rule(&EngagementTypeFieldRule, expr, ctx, errors, warnings);
        proof { lemma_appended_join(errors@, warnings@, e1, w1, e0, w0, acc, apply(EngagementTypeFieldRule, e, c)); acc = join(acc, apply(EngagementTypeFieldRule, e, c)); e1 = errors@; w1 = warnings@; }
        apply_rule(&VerifiedTypeFieldRule, expr, ctx, errors, warnings);
        proof { lemma_appended_join(errors@, warnings@, e1, w1, e0, w0, acc, apply(VerifiedTypeFieldRule, e, c)); acc = join(acc, apply(VerifiedTypeFieldRule, e, c)); e1 = errors@; w1 = warnings@; }
        apply_rule(&MinuteOfDayFieldRule, expr, ctx, errors, warnings);
        proof { lemma_appended_join(errors@, warnings@, e1, w1, e0, w0, acc, apply(MinuteOfDayFieldRule, e, c)); acc = join(acc, apply(MinuteOfDayFieldRule, e, c)); e1 = errors@; w1 = warnings@; }
        if RangeFieldRule.can_validate(expr) {
            push_findings(RangeFieldRule.validate(expr, ctx, numbers), errors, warnings);
        } else {
            push_findings(ValidationResult::new(), errors, warnings);
        }
        proof { lemma_appended_join(errors@, warnings@, e1, w1, e0, w0, acc, RangeFieldRule.findings(e, numbers@)); acc = join(acc, RangeFieldRule.findings(e, numbers@)); e1 = errors@; w1 = warnings@; }
        apply_rule(&FollowerCountFieldRule, expr, ctx, errors, warnings);
        proof { lemma_appended_join(errors@, warnings@, e1, w1, e0, w0, acc, apply(FollowerCountFieldRule, e, c)); acc = join(acc, apply(FollowerCountFieldRule, e, c)); e1 = errors@; w1 = warnings@; }
        apply_rule(&GuidFieldRule, expr, ctx, errors, warnings);
        proof { lemma_appended_join(errors@, warnings@, e1, w1, e0, w0, acc, apply(GuidFieldRule, e, c)); acc = join(acc, apply(GuidFieldRule, e, c)); e1 = errors@; w1 = warnings@; }
        apply_rule(&MixedAndOrRule, expr, ctx, errors, warnings);
        proof { lemma_appended_join(errors@, warnings@, e1, w1, e0, w0, acc, apply(MixedAndOrRule, e, c)); acc = join(acc, apply(MixedAndOrRule, e, c)); e1 = errors@; w1 = warnings@; }
        apply_rule(&MixedNearRule, expr, ctx, errors, warnings);
        proof { lemma_appended_join(errors@, warnings@, e1, w1, e0, w0, acc, apply(MixedNearRule, e, c)); acc = join(acc, apply(MixedNearRule, e, c)); e1 = errors@; w1 = warnings@; }
        apply_rule(&PureNegativeRule, expr, ctx, errors, warnings);
        proof { lemma_appended_join(errors@, warnings@, e1, w1, e0, w0, acc, apply(PureNegativeRule, e, c)); acc = join(acc, apply(PureNegativeRule, e, c)); e1 = errors@; w1 = warnings@; }
        apply_rule(&BinaryOperatorRule, expr, ctx, errors, warnings);
        proof { lemma_appended_join(errors@, warnings@, e1, w1, e0, w0, acc, apply(BinaryOperatorRule, e, c)); acc = join(acc, apply(BinaryOperatorRule, e, c)); e1 = errors@; w1 = warnings@; }
        apply_rule(&TildeUsageRule, expr, ctx, errors, warnings);
        proof { lemma_appended_join(errors@, warnings@, e1, w1, e0, w0, acc, apply(TildeUsageRule, e, c)); acc = join(acc, apply(TildeUsageRule, e, c)); e1 = errors@; w1 = warnings@; }
        apply_rule(&WildcardPerformanceRule, expr, ctx, errors, warnings);
        proof { lemma_appended_join(errors@, warnings@, e1, w1, e0, w0, acc, apply(WildcardPerformanceRule, e, c)); acc = join(acc, apply(WildcardPerformanceRule, e, c)); e1 = errors@; w1 = warnings@; }
        apply_rule(&ShortTermRule, expr, ctx, errors, warnings);
        proof { lemma_appended_join(errors@, warnings@, e1, w1, e0, w0, acc, apply(ShortTermRule, e, c)); acc = join(acc, apply(ShortTermRule, e, c)); }
        assert(acc == node_findings(e, c, numbers@));
    }

    /// Applies the rules to `expr` and to everything below it.
    fn walk_expression(
        &self,
        expr: &Expression,
        ctx: &ValidationContext,
        numbers: &NumberFacts,
        errors: &mut Vec<LintError>,
        warnings: &mut Vec<LintWarning>,
    )
        ensures
            appended(final(errors)@, final(warnings)@, old(errors)@, old(warnings)@, walk(expr@, *ctx, numbers@)),
        decreases expr,
    {
        let ghost e0 = errors@;
        let ghost w0 = warnings@;
        self.apply_rules(expr, ctx, numbers, errors, warnings);
        let ghost here = node_findings(expr@, *ctx, numbers@);
        let ghost e1 = errors@;
        let ghost w1 = warnings@;
        match expr {
            Expression::BooleanOp { operator, left, right, .. } => {
                let child = ValidationContext { parent_operator: Some(*operator), ..*ctx };
                self.walk_expression(&**left, &child, numbers, errors, warnings);
                proof {
                    lemma_appended_join(errors@, warnings@, e1, w1, e0, w0, here, walk((**left)@, child, numbers@));
                }
                let ghost e2 = errors@;
                let ghost w2 = warnings@;
                match right {
                    Some(r) => {
                        self.walk_expression(&**r, &child, numbers, errors, warnings);
                        proof {
                            lemma_appended_join(errors@, warnings@, e2, w2, e0, w0, join(here, walk((**left)@, child, numbers@)), walk((**r)@, child, numbers@));
                        }
                    },
                    None => {},
                }
            },
            Expression::Group { expression, .. } => {
                let inner = ValidationContext { inside_group: true, ..*ctx };
                self.walk_expression(&**expression, &inner, numbers, errors, warnings);
                proof {
                    lemma_appended_join(errors@, warnings@, e1, w1, e0, w0, here, walk((**expression)@, inner, numbers@));
                }
            },
            Expression::Proximity { terms, .. } => {
                let ghost tv = exprs_view(terms@);
                proof {
                    lemma_exprs_view(terms@);
                    assert forall|k: int| 0 <= k < terms@.len() implies decreases_to!(*expr => #[trigger] terms@[k]) by {
                        assert(decreases_to!(*expr => *terms));
                        assert(decreases_to!(*terms => terms@));
                        assert(decreases_to!(terms@ => terms@[k]));
                    }
                    assert(tv.take(0) =~= Seq::<ExpressionView>::empty());
                    assert(errors_view(errors@) + Seq::empty() =~= errors_view(errors@));
                    assert(warnings_view(warnings@) + Seq::empty() =~= warnings_view(warnings@));
                }
                let mut i: usize = 0;
                while i < terms.len()
                    invariant
                        0 <= i <= terms@.len(),
                        tv == exprs_view(terms@),
                        tv.len() == terms@.len(),
                        forall|k: int| 0 <= k < terms@.len() ==> #[trigger] tv[k] == terms@[k]@,
                        forall|k: int| 0 <= k < terms@.len() ==> decreases_to!(*expr => #[trigger] terms@[k]),
                        appended(errors@, warnings@, e1, w1, walk_all(tv.take(i as int), *ctx, numbers@)),
                    decreases terms@.len() - i,
                {
                    let ghost e2 = errors@;
                    let ghost w2 = warnings@;
                    self.walk_expression(&terms[i], ctx, numbers, errors, warnings);
                    proof {
                        assert(tv.take(i + 1).drop_last() =~= tv.take(i as int));
                        assert(tv.take(i + 1)[i as int] == tv[i as int]);
                        lemma_appended_join(errors@, warnings@, e2, w2, e1, w1, walk_all(tv.take(i as int), *ctx, numbers@), walk(tv[i as int], *ctx, numbers@));
                    }
                    i += 1;
                }
                proof {
                    assert(tv.take(tv.len() as int) =~= tv);
                    lemma_appended_join(errors@, warnings@, e1, w1, e0, w0, here, walk_all(tv, *ctx, numbers@));
                }
            },
            Expression::Field { field, value, .. } => {
                let inner = ValidationContext { field_context: Some(*field), ..*ctx };
                self.walk_expression(&**value, &inner, numbers, errors, warnings);
                proof {
                    lemma_appended_join(errors@, warnings@, e1, w1, e0, w0, here, walk((**value)@, inner, numbers@));
                }
            },
            _ => {},
        }
    }
}

} // verus!
