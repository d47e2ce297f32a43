//! Checks a parsed query: the rules on its expressions, then the rule on the query
//! as a whole.
use vstd::prelude::*;
use crate::ast::{Query, QueryView};
use crate::error::{LintError, LintErrorView, LintReport, LintReportView};
use crate::text::owned;
use crate::validation::engine::{apply, node_findings, walk, walk_all, ValidationEngine};
use crate::validation::{join, Findings, NumberFacts, NumberReading, ValidationContext};
use crate::validation::rules::field_rules::{
    AuthorGenderFieldRule, BooleanFieldRule, CoordinateFieldRule, RangeFieldRule, EngagementTypeFieldRule, FollowerCountFieldRule, GuidFieldRule,
    LanguageFieldRule, MinuteOfDayFieldRule, RatingFieldRule, VerifiedTypeFieldRule,
};
use crate::validation::rules::operator_rules::{BinaryOperatorRule, MixedAndOrRule, MixedNearRule, TildeUsageRule};
use crate::validation::rules::performance_rules::{ShortTermRule, WildcardPerformanceRule};
use crate::ast::{BooleanOperator, ExpressionView};
use crate::validation::rules::operator_rules::{pure_negative, PureNegativeRule};
use crate::validation::top_context;

verus! {

pub open spec fn pure_negative_message() -> Seq<char> {
    "Queries must contain at least one non-excluded term"@
}

/// What the validator finds in the query `q`, values reading as numbers as
/// `numbers` says: the findings of the rules on its expressions, and an error over
/// the whole query when it only excludes terms.
pub open spec fn validation_report(q: QueryView, numbers: Seq<(Seq<char>, NumberReading)>) -> LintReportView {
    let f = walk(q.expression, top_context(), numbers);
    LintReportView {
        errors: f.errors + if pure_negative(q.expression) {
            seq![LintErrorView::PureNegativeQueryError { span: q.span, message: pure_negative_message() }]
        } else {
            Seq::empty()
        },
        warnings: f.warnings,
    }
}

/// None of `errors` is the error of a query that only excludes terms.
pub open spec fn no_pure_negative_error(errors: Seq<LintErrorView>) -> bool {
    forall|i: int| 0 <= i < errors.len() ==> !(#[trigger] errors[i] is PureNegativeQueryError)
}

proof fn lemma_join_keeps(a: Findings, b: Findings)
    requires
        no_pure_negative_error(a.errors),
        no_pure_negative_error(b.errors),
    ensures
        no_pure_negative_error(join(a, b).errors),
{
    assert forall|i: int| 0 <= i < join(a, b).errors.len() implies !(#[trigger] join(a, b).errors[i] is PureNegativeQueryError) by {
        if i >= a.errors.len() {
            assert(join(a, b).errors[i] == b.errors[i - a.errors.len()]);
        }
    }
}

proof fn lemma_node_findings(e: ExpressionView, ctx: ValidationContext, numbers: Seq<(Seq<char>, NumberReading)>)
    ensures
        no_pure_negative_error(node_findings(e, ctx, numbers).errors),
{
    let fr = join(crate::validation::no_findings(), apply(RatingFieldRule, e, ctx));
    assert(no_pure_negative_error(apply(RatingFieldRule, e, ctx).errors));
    lemma_join_keeps(crate::validation::no_findings(), apply(RatingFieldRule, e, ctx));
    assert(no_pure_negative_error(CoordinateFieldRule.findings(e, numbers).errors));
    lemma_join_keeps(fr, CoordinateFieldRule.findings(e, numbers));
    let f0 = join(fr, CoordinateFieldRule.findings(e, numbers));
    assert(no_pure_negative_error(apply(LanguageFieldRule, e, ctx).errors));
    lemma_join_keeps(f0, apply(LanguageFieldRule, e, ctx));
    let f1 = join(f0, apply(LanguageFieldRule, e, ctx));
    assert(no_pure_negative_error(apply(AuthorGenderFieldRule, e, ctx).errors));
    lemma_join_keeps(f1, apply(AuthorGenderFieldRule, e, ctx));
    let f2 = join(f1, apply(AuthorGenderFieldRule, e, ctx));
    assert(no_pure_negative_error(apply(BooleanFieldRule, e, ctx).errors));
    lemma_join_keeps(f2, apply(BooleanFieldRule, e, ctx));
    let f3 = join(f2, apply(BooleanFieldRule, e, ctx));
    assert(no_pure_negative_error(apply(EngagementTypeFieldRule, e, ctx).errors));
    lemma_join_keeps(f3, apply(EngagementTypeFieldRule, e, ctx));
    let f4 = join(f3, apply(EngagementTypeFieldRule, e, ctx));
    assert(no_pure_negative_error(apply(VerifiedTypeFieldRule, e, ctx).errors));
    lemma_join_keeps(f4, apply(VerifiedTypeFieldRule, e, ctx));
    let f5 = join(f4, apply(VerifiedTypeFieldRule, e, ctx));
    assert(no_pure_negative_error(apply(MinuteOfDayFieldRule, e, ctx).errors));
    lemma_join_keeps(f5, apply(MinuteOfDayFieldRule, e, ctx));
    let fm = join(f5, apply(MinuteOfDayFieldRule, e, ctx));
    assert(no_pure_negative_error(RangeFieldRule.findings(e, numbers).errors));
    lemma_join_keeps(fm, RangeFieldRule.findings(e, numbers));
    let f6 = join(fm, RangeFieldRule.findings(e, numbers));
    assert(no_pure_negative_error(apply(FollowerCountFieldRule, e, ctx).errors));
    lemma_join_keeps(f6, apply(FollowerCountFieldRule, e, ctx));
    let f7 = join(f6, apply(FollowerCountFieldRule, e, ctx));
    assert(no_pure_negative_error(apply(GuidFieldRule, e, ctx).errors));
    lemma_join_keeps(f7, apply(GuidFieldRule, e, ctx));
    let f8 = join(f7, apply(GuidFieldRule, e, ctx));
    assert(no_pure_negative_error(apply(MixedAndOrRule, e, ctx).errors));
    lemma_join_keeps(f8, apply(MixedAndOrRule, e, ctx));
    let f9 = join(f8, apply(MixedAndOrRule, e, ctx));
    assert(no_pure_negative_error(apply(MixedNearRule, e, ctx).errors));
    lemma_join_keeps(f9, apply(MixedNearRule, e, ctx));
    let f10 = join(f9, apply(MixedNearRule, e, ctx));
    assert(no_pure_negative_error(apply(PureNegativeRule, e, ctx).errors));
    lemma_join_keeps(f10, apply(PureNegativeRule, e, ctx));
    let f11 = join(f10, apply(PureNegativeRule, e, ctx));
    assert(no_pure_negative_error(apply(BinaryOperatorRule, e, ctx).errors));
    lemma_join_keeps(f11, apply(BinaryOperatorRule, e, ctx));
    let f12 = join(f11, apply(BinaryOperatorRule, e, ctx));
    assert(no_pure_negative_error(apply(TildeUsageRule, e, ctx).errors));
    lemma_join_keeps(f12, apply(TildeUsageRule, e, ctx));
    let f13 = join(f12, apply(TildeUsageRule, e, ctx));
    assert(no_pure_negative_error(apply(WildcardPerformanceRule, e, ctx).errors));
    lemma_join_keeps(f13, apply(WildcardPerformanceRule, e, ctx));
    let f14 = join(f13, apply(WildcardPerformanceRule, e, ctx));
    assert(no_pure_negative_error(apply(ShortTermRule, e, ctx).errors));
    lemma_join_keeps(f14, apply(ShortTermRule, e, ctx));
}

proof fn lemma_walk(e: ExpressionView, ctx: ValidationContext, numbers: Seq<(Seq<char>, NumberReading)>)
    ensures
        no_pure_negative_error(walk(e, ctx, numbers).errors),
    decreases e,
{
    lemma_node_findings(e, ctx, numbers);
    let here = node_findings(e, ctx, numbers);
    match e {
        ExpressionView::BooleanOp { operator, left, right, .. } => {
            let child = ValidationContext { parent_operator: Some(operator), ..ctx };
            lemma_walk(*left, child, numbers);
            lemma_join_keeps(here, walk(*left, child, numbers));
            match right {
                Some(r) => {
                    lemma_walk(*r, child, numbers);
                    lemma_join_keeps(join(here, walk(*left, child, numbers)), walk(*r, child, numbers));
                },
                None => {},
            }
        },
        ExpressionView::Group { expression, .. } => {
            let c = ValidationContext { inside_group: true, ..ctx };
            lemma_walk(*expression, c, numbers);
            lemma_join_keeps(here, walk(*expression, c, numbers));
        },
        ExpressionView::Proximity { terms, .. } => {
            lemma_walk_all(terms, ctx, numbers);
            lemma_join_keeps(here, walk_all(terms, ctx, numbers));
        },
        ExpressionView::Field { field, value, .. } => {
            let c = ValidationContext { field_context: Some(field), ..ctx };
            lemma_walk(*value, c, numbers);
            lemma_join_keeps(here, walk(*value, c, numbers));
        },
        _ => {},
    }
}

proof fn lemma_walk_all(terms: Seq<ExpressionView>, ctx: ValidationContext, numbers: Seq<(Seq<char>, NumberReading)>)
    ensures
        no_pure_negative_error(walk_all(terms, ctx, numbers).errors),
    decreases terms,
{
    if terms.len() > 0 {
        assert(terms.drop_last() =~= terms.subrange(0, terms.len() - 1));
        lemma_walk_all(terms.drop_last(), ctx, numbers);
        lemma_walk(terms[terms.len() - 1], ctx, numbers);
        lemma_join_keeps(walk_all(terms.drop_last(), ctx, numbers), walk(terms[terms.len() - 1], ctx, numbers));
    }
}

/// A query that only excludes terms gets one error for it, the last, over the whole
/// query; any other query gets none.
pub proof fn law_pure_negative_error(q: QueryView, numbers: Seq<(Seq<char>, NumberReading)>)
    ensures
        ({
            let errors = validation_report(q, numbers).errors;
            if pure_negative(q.expression) {
                &&& errors.len() >= 1
                &&& errors.last() == LintErrorView::PureNegativeQueryError { span: q.span, message: pure_negative_message() }
                &&& no_pure_negative_error(errors.drop_last())
            } else {
                no_pure_negative_error(errors)
            }
        }),
{
    let f = walk(q.expression, top_context(), numbers);
    lemma_walk(q.expression, top_context(), numbers);
    let errors = validation_report(q, numbers).errors;
    if pure_negative(q.expression) {
        assert(errors.drop_last() =~= f.errors);
    } else {
        assert(errors =~= f.errors);
    }
}

/// A query that names a term it does not exclude is not purely negative: a term, a
/// field, a range or a proximity never is; an AND or OR is only when both its
/// operands are; a NOT with a right operand only when its left side is; a group
/// only when what it holds is.
pub proof fn law_pure_negative_needs_negative_parts(e: ExpressionView)
    ensures
        !(e is BooleanOp) && !(e is Group) ==> !pure_negative(e),
        e matches ExpressionView::BooleanOp { operator, left, right: Some(r), .. }
            ==> (operator != BooleanOperator::Not && pure_negative(e) ==> pure_negative(*left) && pure_negative(*r)),
        e matches ExpressionView::BooleanOp { operator: BooleanOperator::Not, left, right: Some(r), .. }
            ==> (pure_negative(e) ==> pure_negative(*left)),
        e matches ExpressionView::Group { expression, .. } ==> (pure_negative(e) ==> pure_negative(*expression)),
{
}

/// An AND or OR whose left operand is a term, a field, a range or a proximity is
/// never reported as a query that only excludes terms, whatever its right operand.
pub proof fn law_included_left_operand_not_pure_negative(q: QueryView, numbers: Seq<(Seq<char>, NumberReading)>)
    requires
        q.expression is BooleanOp,
        q.expression->BooleanOp_operator != BooleanOperator::Not,
        q.expression->BooleanOp_right is Some,
        !(*q.expression->BooleanOp_left is BooleanOp),
        !(*q.expression->BooleanOp_left is Group),
    ensures
        no_pure_negative_error(validation_report(q, numbers).errors),
{
    law_pure_negative_error(q, numbers);
    if let ExpressionView::BooleanOp { operator, left, right: Some(r), .. } = q.expression {
        law_pure_negative_needs_negative_parts(q.expression);
        law_pure_negative_needs_negative_parts(*left);
    }
}

/// Checks parsed queries.
pub struct Validator {
    engine: ValidationEngine,
    pure_negative_rule: PureNegativeRule,
}

impl Validator {
    pub fn new() -> (r: Self) {
        Validator { engine: ValidationEngine::new(), pure_negative_rule: PureNegativeRule }
    }

    /// The errors and warnings in `query`, values reading as numbers as `numbers` says.
    pub fn validate(&mut self, query: &Query, numbers: &NumberFacts) -> (r: LintReport)
        ensures
            r@ == validation_report(query@, numbers@),
    {
        let report = self.engine.validate(query, numbers);
        let LintReport { errors, warnings } = report;
        let mut errors = errors;
        let ghost before = errors@;
        let ghost f = walk(query@.expression, top_context(), numbers@);
        assert(crate::error::errors_view(before) == f.errors);
        if self.pure_negative_rule.is_pure_negative_query(&query.expression) {
            let e = LintError::PureNegativeQueryError {
                span: query.span,
                message: owned("Queries must contain at least one non-excluded term"),
            };
            let ghost ev = e@;
            errors.push(e);
            assert(crate::error::errors_view(errors@) =~= f.errors + seq![ev]);
        } else {
            assert(crate::error::errors_view(errors@) =~= f.errors + Seq::<LintErrorView>::empty());
        }
        LintReport { errors, warnings }
    }
}

impl Default for Validator {
    fn default() -> (r: Self) {
        Validator::new()
    }
}

impl Default for ValidationEngine {
    fn default() -> (r: Self) {
        ValidationEngine::new()
    }
}

} // verus!
