//! Rules on terms that match too much or nothing.
use vstd::prelude::*;
use crate::ast::{Expression, ExpressionView, Term, TermView};
use crate::error::{LintError, LintErrorView, LintWarning, LintWarningView, Span};
use crate::text::{ascii, blank, chars_of, is_ascii, is_blank, owned};
use crate::validation::{error_finding, no_findings, warning_finding, Findings, ValidationContext, ValidationResult, ValidationRule};

verus! {

/// The characters of `s` before its first `*`; all of `s` when it has none.
pub open spec fn star_prefix(s: Seq<char>) -> Seq<char>
    decreases s.len(),
{
    if s.len() == 0 || s[0] == '*' {
        Seq::empty()
    } else {
        seq![s[0]] + star_prefix(s.drop_first())
    }
}

/// How many times `c` occurs in `s`.
pub open spec fn count_char(s: Seq<char>, c: char) -> nat
    decreases s.len(),
{
    if s.len() == 0 {
        0
    } else {
        count_char(s.drop_last(), c) + if s.last() == c { 1nat } else { 0nat }
    }
}

/// Whether every character of `s` is a `*`.
pub open spec fn only_stars(s: Seq<char>) -> bool {
    forall|i: int| 0 <= i < s.len() ==> s[i] == '*'
}

/// A wildcard that pins down one ASCII character and nothing else, such as `a*`.
pub open spec fn too_broad(value: Seq<char>) -> bool {
    let first = star_prefix(value);
    first.len() == 1 && ascii(first[0]) && only_stars(value.skip(1))
}

pub open spec fn starts_with(s: Seq<char>, c: char) -> bool {
    s.len() > 0 && s[0] == c
}

pub open spec fn wildcard_error(span: Span, message: Seq<char>) -> LintErrorView {
    LintErrorView::InvalidWildcardPlacement { span, message }
}

/// A wildcard cannot open a word, nor follow a single ASCII character with nothing
/// else; more than three `?` in a word slow the search down.
pub struct WildcardPerformanceRule;

impl ValidationRule for WildcardPerformanceRule {
    open spec fn applies_to(&self, e: ExpressionView) -> bool {
        e matches ExpressionView::Term { term, .. } && (term is Wildcard || term is Replacement)
    }

    open spec fn findings(&self, e: ExpressionView, ctx: ValidationContext) -> Findings {
        match e {
            ExpressionView::Term { term: TermView::Wildcard { value }, span } => {
                Findings {
                    errors: (if starts_with(value, '*') {
                        seq![wildcard_error(span, "wildcards cannot be at the beginning of a word"@)]
                    } else {
                        Seq::empty()
                    }) + (if too_broad(value) {
                        seq![wildcard_error(span, "This wildcard matches too many unique terms. Please make it more specific."@)]
                    } else {
                        Seq::empty()
                    }),
                    warnings: Seq::empty(),
                }
            },
            ExpressionView::Term { term: TermView::Replacement { value }, span } => if count_char(value, '?') > 3 {
                warning_finding(LintWarningView::PerformanceWarning { span, message: "Multiple replacement characters may impact performance"@ })
            } else {
                no_findings()
            },
            _ => no_findings(),
        }
    }

    open spec fn rule_name(&self) -> Seq<char> {
        "wildcard-performance"@
    }

    fn name(&self) -> &'static str {
        "wildcard-performance"
    }

    fn validate(&self, expr: &Expression, ctx: &ValidationContext) -> (r: ValidationResult) {
        match expr {
            Expression::Term { term: Term::Wildcard { value }, span } => {
                let cs = chars_of(value.as_str());
                let mut k: usize = 0;
                assert(cs@.skip(0) =~= cs@);
                assert(cs@.take(0) + star_prefix(cs@.skip(0)) =~= star_prefix(cs@));
                while k < cs.len() && cs[k] != '*'
                    invariant
                        0 <= k <= cs@.len(),
                        cs@ == value@,
                        star_prefix(cs@) == cs@.take(k as int) + star_prefix(cs@.skip(k as int)),
                    decreases cs@.len() - k,
                {
                    assert(cs@.skip(k as int).drop_first() =~= cs@.skip(k + 1));
                    assert(cs@.take(k + 1) =~= cs@.take(k as int) + seq![cs@[k as int]]);
                    k += 1;
                }
                proof {
                    assert(star_prefix(cs@.skip(k as int)) =~= Seq::<char>::empty());
                    assert(star_prefix(cs@) =~= cs@.take(k as int));
                }
                let mut errors: Vec<LintError> = Vec::new();
                let ghost e0 = errors@;
                if cs.len() > 0 && cs[0] == '*' {
                    errors.push(LintError::InvalidWildcardPlacement { span: *span, message: owned("wildcards cannot be at the beginning of a word") });
                }
                let ghost e1 = errors@;
                let mut rest_stars = true;
                let mut j: usize = 1;
                while j < cs.len()
                    invariant
                        1 <= j,
                        cs@.len() >= 1 ==> j <= cs@.len(),
                        cs@ == value@,
                        rest_stars == (forall|i: int| 1 <= i < j && i < cs@.len() ==> cs@[i] == '*'),
                    decreases cs@.len() - j,
                {
                    if cs[j] != '*' {
                        rest_stars = false;
                    }
                    j += 1;
                }
                proof {
                    assert(cs@.len() >= 1 ==> rest_stars == only_stars(cs@.skip(1))) by {
                        if cs@.len() >= 1 {
                            if rest_stars {
                                assert forall|i: int| 0 <= i < cs@.skip(1).len() implies cs@.skip(1)[i] == '*' by {
                                    assert(cs@.skip(1)[i] == cs@[i + 1]);
                                }
                            } else {
                                let i = choose|i: int| 1 <= i < j && i < cs@.len() && cs@[i] != '*';
                                assert(cs@.skip(1)[i - 1] == cs@[i]);
                            }
                        }
                    }
                }
                if k == 1 && is_ascii(cs[0]) && rest_stars {
                    errors.push(LintError::InvalidWildcardPlacement {
                        span: *span,
                        message: owned("This wildcard matches too many unique terms. Please make it more specific."),
                    });
                }
                let result = ValidationResult { errors, warnings: Vec::new() };
                proof {
                    let first = star_prefix(value@);
                    let a: Seq<LintErrorView> = if starts_with(value@, '*') { seq![wildcard_error(*span, "wildcards cannot be at the beginning of a word"@)] } else { Seq::empty() };
                    let b: Seq<LintErrorView> = if too_broad(value@) { seq![wildcard_error(*span, "This wildcard matches too many unique terms. Please make it more specific."@)] } else { Seq::empty() };
                    assert(crate::error::errors_view(e1) =~= a);
                    assert(result@.errors =~= a + b);
                    assert(result@.warnings =~= Seq::<LintWarningView>::empty());
                }
                result
            },
            Expression::Term { term: Term::Replacement { value }, span } => {
                let cs = chars_of(value.as_str());
                let mut count: usize = 0;
                let mut i: usize = 0;
                while i < cs.len()
                    invariant
                        0 <= i <= cs@.len(),
                        cs@ == value@,
                        count == count_char(cs@.take(i as int), '?'),
                        count <= i,
                    decreases cs@.len() - i,
                {
                    assert(cs@.take(i + 1).drop_last() =~= cs@.take(i as int));
                    if cs[i] == '?' {
                        count += 1;
                    }
                    i += 1;
                }
                assert(cs@.take(cs@.len() as int) =~= cs@);
                if count > 3 {
                    ValidationResult::with_warning(LintWarning::PerformanceWarning {
                        span: *span,
                        message: owned("Multiple replacement characters may impact performance"),
                    })
                } else {
                    ValidationResult::new()
                }
            },
            _ => ValidationResult::new(),
        }
    }

    fn can_validate(&self, expr: &Expression) -> (r: bool) {
        match expr {
            Expression::Term { term: Term::Wildcard { .. }, .. } => true,
            Expression::Term { term: Term::Replacement { .. }, .. } => true,
            _ => false,
        }
    }
}

pub open spec fn empty_error(span: Span, message: Seq<char>) -> Findings {
    error_finding(LintErrorView::ValidationError { span, message })
}

/// A tag whose text starts with a wildcard.
pub open spec fn wild_start(v: Seq<char>) -> bool {
    starts_with(v, '*') || starts_with(v, '?')
}

/// Words, phrases, hashtags and mentions cannot be empty, and a hashtag or a
/// mention should not start with a wildcard.
pub struct ShortTermRule;

impl ValidationRule for ShortTermRule {
    open spec fn applies_to(&self, e: ExpressionView) -> bool {
        e is Term
    }

    open spec fn findings(&self, e: ExpressionView, ctx: ValidationContext) -> Findings {
        match e {
            ExpressionView::Term { term, span } => match term {
                TermView::Word { value } => if blank(value) { empty_error(span, "Word cannot be empty"@) } else { no_findings() },
                TermView::Phrase { value } => if blank(value) { empty_error(span, "Quoted phrase cannot be empty"@) } else { no_findings() },
                TermView::Hashtag { value } => if blank(value) {
                    empty_error(span, "Hashtag cannot be empty"@)
                } else if wild_start(value) {
                    warning_finding(LintWarningView::PerformanceWarning {
                        span,
                        message: "Wildcard usage after '#' is discouraged and may lead to unexpected results"@,
                    })
                } else {
                    no_findings()
                },
                TermView::Mention { value } => if blank(value) {
                    empty_error(span, "Mention cannot be empty"@)
                } else if wild_start(value) {
                    warning_finding(LintWarningView::PerformanceWarning {
                        span,
                        message: "Wildcard usage after '@' is discouraged and may lead to unexpected results"@,
                    })
                } else {
                    no_findings()
                },
                _ => no_findings(),
            },
            _ => no_findings(),
        }
    }

    open spec fn rule_name(&self) -> Seq<char> {
        "short-term"@
    }

    fn name(&self) -> &'static str {
        "short-term"
    }

    fn validate(&self, expr: &Expression, ctx: &ValidationContext) -> (r: ValidationResult) {
        match expr {
            Expression::Term { term, span } => match term {
                Term::Word { value } => if is_blank(value.as_str()) {
                    ValidationResult::with_error(LintError::ValidationError { span: *span, message: owned("Word cannot be empty") })
                } else {
                    ValidationResult::new()
                },
                Term::Phrase { value } => if is_blank(value.as_str()) {
                    ValidationResult::with_error(LintError::ValidationError { span: *span, message: owned("Quoted phrase cannot be empty") })
                } else {
                    ValidationResult::new()
                },
                Term::Hashtag { value } => if is_blank(value.as_str()) {
                    ValidationResult::with_error(LintError::ValidationError { span: *span, message: owned("Hashtag cannot be empty") })
                } else if starts_with_wildcard(value.as_str()) {
                    ValidationResult::with_warning(LintWarning::PerformanceWarning {
                        span: *span,
                        message: owned("Wildcard usage after '#' is discouraged and may lead to unexpected results"),
                    })
                } else {
                    ValidationResult::new()
                },
                Term::Mention { value } => if is_blank(value.as_str()) {
                    ValidationResult::with_error(LintError::ValidationError { span: *span, message: owned("Mention cannot be empty") })
                } else if starts_with_wildcard(value.as_str()) {
                    ValidationResult::with_warning(LintWarning::PerformanceWarning {
                        span: *span,
                        message: owned("Wildcard usage after '@' is discouraged and may lead to unexpected results"),
                    })
                } else {
                    ValidationResult::new()
                },
                _ => ValidationResult::new(),
            },
            _ => ValidationResult::new(),
        }
    }

    fn can_validate(&self, expr: &Expression) -> (r: bool) {
        match expr {
            Expression::Term { .. } => true,
            _ => false,
        }
    }
}

fn starts_with_wildcard(s: &str) -> (r: bool)
    ensures
        r == wild_start(s@),
{
    let cs = chars_of(s);
    cs.len() > 0 && (cs[0] == '*' || cs[0] == '?')
}

} // verus!
