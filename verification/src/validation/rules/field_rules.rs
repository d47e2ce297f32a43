//! Rules on the values of particular fields.
use vstd::prelude::*;
use crate::ast::{field_name, Expression, ExpressionView, FieldType};
use crate::error::{LintError, LintErrorView, LintWarning, LintWarningView, Span};
use crate::number::{
    int_text_len, i64_text_len, parse_i32, parse_i32_str, parse_i64, parse_i64_str,
};
use crate::text::{ascii_digit, ascii_lowercase, chars_of, concat2, owned, str_eq};
use crate::validation::{
    error_finding, no_findings, reading_of, reads_above, warning_finding, word_of, word_value, Findings,
    NumberFacts, NumberReading, ValidationContext, ValidationResult, ValidationRule,
};

verus! {

pub open spec fn field_error(span: Span, message: Seq<char>) -> Findings {
    error_finding(LintErrorView::FieldValidationError { span, message })
}

fn field_error_result(span: Span, message: &str) -> (r: ValidationResult)
    ensures
        r@ == field_error(span, message@),
{
    ValidationResult::with_error(LintError::FieldValidationError { span, message: owned(message) })
}

/// Ratings run from 0 to 5; a range of ratings must hold two integers.
pub struct RatingFieldRule;

pub open spec fn rating_ok(n: int) -> bool {
    0 <= n <= 5
}

impl ValidationRule for RatingFieldRule {
    open spec fn applies_to(&self, e: ExpressionView) -> bool {
        e matches ExpressionView::Field { field: FieldType::Rating, .. }
            || e matches ExpressionView::Range { field: Some(FieldType::Rating), .. }
    }

    open spec fn findings(&self, e: ExpressionView, ctx: ValidationContext) -> Findings {
        match e {
            ExpressionView::Field { field: FieldType::Rating, value, span } => match word_of(*value) {
                Some(rating) => match parse_i32(rating) {
                    Some(n) => if !rating_ok(n) {
                        field_error(span, "Rating must be between 0 and 5"@)
                    } else {
                        no_findings()
                    },
                    None => no_findings(),
                },
                None => no_findings(),
            },
            ExpressionView::Range { field: Some(FieldType::Rating), start, end, span } => match (parse_i32(start), parse_i32(end)) {
                (Some(a), Some(b)) => if !rating_ok(a) || !rating_ok(b) {
                    field_error(span, "Rating values must be between 0 and 5"@)
                } else {
                    no_findings()
                },
                _ => field_error(span, "Rating range values must be numbers"@),
            },
            _ => no_findings(),
        }
    }

    open spec fn rule_name(&self) -> Seq<char> {
        "rating-field"@
    }

    fn name(&self) -> &'static str {
        "rating-field"
    }

    fn validate(&self, expr: &Expression, ctx: &ValidationContext) -> (r: ValidationResult) {
        match expr {
            Expression::Field { field: FieldType::Rating, value, span } => {
                if let Some(rating) = word_value(&**value) {
                    if let Some(n) = parse_i32_str(rating.as_str()) {
                        if !(0 <= n && n <= 5) {
                            return field_error_result(*span, "Rating must be between 0 and 5");
                        }
                    }
                }
                ValidationResult::new()
            },
            Expression::Range { field: Some(FieldType::Rating), start, end, span } => {
                match (parse_i32_str(start.as_str()), parse_i32_str(end.as_str())) {
                    (Some(a), Some(b)) => {
                        if !(0 <= a && a <= 5) || !(0 <= b && b <= 5) {
                            return field_error_result(*span, "Rating values must be between 0 and 5");
                        }
                        ValidationResult::new()
                    },
                    _ => field_error_result(*span, "Rating range values must be numbers"),
                }
            },
            _ => ValidationResult::new(),
        }
    }

    fn can_validate(&self, expr: &Expression) -> (r: bool) {
        match expr {
            Expression::Field { field: FieldType::Rating, .. } => true,
            Expression::Range { field: Some(FieldType::Rating), .. } => true,
            _ => false,
        }
    }
}

/// A language is given as a two-letter lowercase ISO 639-1 code.
pub struct LanguageFieldRule;

pub open spec fn language_code_ok(code: Seq<char>) -> bool {
    code.len() == 2 && forall|i: int| 0 <= i < code.len() ==> ascii_lowercase(#[trigger] code[i])
}

impl ValidationRule for LanguageFieldRule {
    open spec fn applies_to(&self, e: ExpressionView) -> bool {
        e matches ExpressionView::Field { field: FieldType::Language, .. }
    }

    open spec fn findings(&self, e: ExpressionView, ctx: ValidationContext) -> Findings {
        match e {
            ExpressionView::Field { field: FieldType::Language, value, span } => match word_of(*value) {
                Some(code) => if !language_code_ok(code) {
                    warning_finding(LintWarningView::PotentialTypo {
                        span,
                        message: "Language codes should be 2-character ISO 639-1 codes (e.g., 'en', 'es')"@,
                    })
                } else {
                    no_findings()
                },
                None => no_findings(),
            },
            _ => no_findings(),
        }
    }

    open spec fn rule_name(&self) -> Seq<char> {
        "language-field"@
    }

    fn name(&self) -> &'static str {
        "language-field"
    }

    fn validate(&self, expr: &Expression, ctx: &ValidationContext) -> (r: ValidationResult) {
        if let Expression::Field { field: FieldType::Language, value, span } = expr {
            if let Some(code) = word_value(&**value) {
                let cs = chars_of(code.as_str());
                let ok = cs.len() == 2 && 'a' <= cs[0] && cs[0] <= 'z' && 'a' <= cs[1] && cs[1] <= 'z';
                proof {
                    if cs@.len() == 2 {
                        assert(language_code_ok(code@) == (ascii_lowercase(cs@[0]) && ascii_lowercase(cs@[1])));
                    }
                }
                if !ok {
                    return ValidationResult::with_warning(LintWarning::PotentialTypo {
                        span: *span,
                        message: owned("Language codes should be 2-character ISO 639-1 codes (e.g., 'en', 'es')"),
                    });
                }
            }
        }
        ValidationResult::new()
    }

    fn can_validate(&self, expr: &Expression) -> (r: bool) {
        match expr {
            Expression::Field { field: FieldType::Language, .. } => true,
            _ => false,
        }
    }
}

/// `authorGender` is `F` or `M`.
pub struct AuthorGenderFieldRule;

impl ValidationRule for AuthorGenderFieldRule {
    open spec fn applies_to(&self, e: ExpressionView) -> bool {
        e matches ExpressionView::Field { field: FieldType::AuthorGender, .. }
    }

    open spec fn findings(&self, e: ExpressionView, ctx: ValidationContext) -> Findings {
        match e {
            ExpressionView::Field { field: FieldType::AuthorGender, value, span } => match word_of(*value) {
                Some(g) => if !(g == "F"@ || g == "M"@) {
                    field_error(span, "authorGender must be 'F' or 'M'"@)
                } else {
                    no_findings()
                },
                None => no_findings(),
            },
            _ => no_findings(),
        }
    }

    open spec fn rule_name(&self) -> Seq<char> {
        "author-gender-field"@
    }

    fn name(&self) -> &'static str {
        "author-gender-field"
    }

    fn validate(&self, expr: &Expression, ctx: &ValidationContext) -> (r: ValidationResult) {
        if let Expression::Field { field: FieldType::AuthorGender, value, span } = expr {
            if let Some(g) = word_value(&**value) {
                if !(str_eq(g.as_str(), "F") || str_eq(g.as_str(), "M")) {
                    return field_error_result(*span, "authorGender must be 'F' or 'M'");
                }
            }
        }
        ValidationResult::new()
    }

    fn can_validate(&self, expr: &Expression) -> (r: bool) {
        match expr {
            Expression::Field { field: FieldType::AuthorGender, .. } => true,
            _ => false,
        }
    }
}

/// The fields whose value is `true` or `false`.
pub open spec fn boolean_field(f: FieldType) -> bool {
    f == FieldType::AuthorVerified || f == FieldType::RedditSpoiler || f == FieldType::SubredditNSFW
        || f == FieldType::SensitiveContent
}

/// The boolean fields take `true` or `false`.
pub struct BooleanFieldRule;

impl ValidationRule for BooleanFieldRule {
    open spec fn applies_to(&self, e: ExpressionView) -> bool {
        e matches ExpressionView::Field { field, .. } && boolean_field(field)
    }

    open spec fn findings(&self, e: ExpressionView, ctx: ValidationContext) -> Findings {
        match e {
            ExpressionView::Field { field, value, span } => if boolean_field(field) {
                match word_of(*value) {
                    Some(v) => if !(v == "true"@ || v == "false"@) {
                        field_error(span, field_name(field) + " must be 'true' or 'false'"@)
                    } else {
                        no_findings()
                    },
                    None => no_findings(),
                }
            } else {
                no_findings()
            },
            _ => no_findings(),
        }
    }

    open spec fn rule_name(&self) -> Seq<char> {
        "boolean-field"@
    }

    fn name(&self) -> &'static str {
        "boolean-field"
    }

    fn validate(&self, expr: &Expression, ctx: &ValidationContext) -> (r: ValidationResult) {
        if let Expression::Field { field, value, span } = expr {
            let is_boolean_field = match field {
                FieldType::AuthorVerified => true,
                FieldType::RedditSpoiler => true,
                FieldType::SubredditNSFW => true,
                FieldType::SensitiveContent => true,
                _ => false,
            };
            if is_boolean_field {
                if let Some(v) = word_value(&**value) {
                    if !(str_eq(v.as_str(), "true") || str_eq(v.as_str(), "false")) {
                        let message = concat2(field.as_str(), " must be 'true' or 'false'");
                        return ValidationResult::with_error(LintError::FieldValidationError { span: *span, message });
                    }
                }
            }
        }
        ValidationResult::new()
    }

    fn can_validate(&self, expr: &Expression) -> (r: bool) {
        match expr {
            Expression::Field { field, .. } => match field {
                FieldType::AuthorVerified => true,
                FieldType::RedditSpoiler => true,
                FieldType::SubredditNSFW => true,
                FieldType::SensitiveContent => true,
                _ => false,
            },
            _ => false,
        }
    }
}

/// `engagementType` is one of `COMMENT`, `REPLY`, `RETWEET` and `QUOTE`.
pub struct EngagementTypeFieldRule;

pub open spec fn engagement_type_ok(v: Seq<char>) -> bool {
    v == "COMMENT"@ || v == "REPLY"@ || v == "RETWEET"@ || v == "QUOTE"@
}

impl ValidationRule for EngagementTypeFieldRule {
    open spec fn applies_to(&self, e: ExpressionView) -> bool {
        e matches ExpressionView::Field { field: FieldType::EngagementType, .. }
    }

    open spec fn findings(&self, e: ExpressionView, ctx: ValidationContext) -> Findings {
        match e {
            ExpressionView::Field { field: FieldType::EngagementType, value, span } => match word_of(*value) {
                Some(v) => if !engagement_type_ok(v) {
                    field_error(span, "engagementType must be 'COMMENT', 'REPLY', 'RETWEET', or 'QUOTE'"@)
                } else {
                    no_findings()
                },
                None => no_findings(),
            },
            _ => no_findings(),
        }
    }

    open spec fn rule_name(&self) -> Seq<char> {
        "engagement-type-field"@
    }

    fn name(&self) -> &'static str {
        "engagement-type-field"
    }

    fn validate(&self, expr: &Expression, ctx: &ValidationContext) -> (r: ValidationResult) {
        if let Expression::Field { field: FieldType::EngagementType, value, span } = expr {
            if let Some(v) = word_value(&**value) {
                let s = v.as_str();
                if !(str_eq(s, "COMMENT") || str_eq(s, "REPLY") || str_eq(s, "RETWEET") || str_eq(s, "QUOTE")) {
                    return field_error_result(*span, "engagementType must be 'COMMENT', 'REPLY', 'RETWEET', or 'QUOTE'");
                }
            }
        }
        ValidationResult::new()
    }

    fn can_validate(&self, expr: &Expression) -> (r: bool) {
        match expr {
            Expression::Field { field: FieldType::EngagementType, .. } => true,
            _ => false,
        }
    }
}

/// `authorVerifiedType` is one of `blue`, `business` and `government`.
pub struct VerifiedTypeFieldRule;

pub open spec fn verified_type_ok(v: Seq<char>) -> bool {
    v == "blue"@ || v == "business"@ || v == "government"@
}

impl ValidationRule for VerifiedTypeFieldRule {
    open spec fn applies_to(&self, e: ExpressionView) -> bool {
        e matches ExpressionView::Field { field: FieldType::AuthorVerifiedType, .. }
    }

    open spec fn findings(&self, e: ExpressionView, ctx: ValidationContext) -> Findings {
        match e {
            ExpressionView::Field { field: FieldType::AuthorVerifiedType, value, span } => match word_of(*value) {
                Some(v) => if !verified_type_ok(v) {
                    field_error(span, "authorVerifiedType must be 'blue', 'business', or 'government'"@)
                } else {
                    no_findings()
                },
                None => no_findings(),
            },
            _ => no_findings(),
        }
    }

    open spec fn rule_name(&self) -> Seq<char> {
        "verified-type-field"@
    }

    fn name(&self) -> &'static str {
        "verified-type-field"
    }

    fn validate(&self, expr: &Expression, ctx: &ValidationContext) -> (r: ValidationResult) {
        if let Expression::Field { field: FieldType::AuthorVerifiedType, value, span } = expr {
            if let Some(v) = word_value(&**value) {
                let s = v.as_str();
                if !(str_eq(s, "blue") || str_eq(s, "business") || str_eq(s, "government")) {
                    return field_error_result(*span, "authorVerifiedType must be 'blue', 'business', or 'government'");
                }
            }
        }
        ValidationResult::new()
    }

    fn can_validate(&self, expr: &Expression) -> (r: bool) {
        match expr {
            Expression::Field { field: FieldType::AuthorVerifiedType, .. } => true,
            _ => false,
        }
    }
}

/// A range of `minuteOfDay` stays within 0 and 1439.
pub struct MinuteOfDayFieldRule;

pub open spec fn minute_ok(n: int) -> bool {
    0 <= n <= 1439
}

impl ValidationRule for MinuteOfDayFieldRule {
    open spec fn applies_to(&self, e: ExpressionView) -> bool {
        e matches ExpressionView::Range { field: Some(FieldType::MinuteOfDay), .. }
    }

    open spec fn findings(&self, e: ExpressionView, ctx: ValidationContext) -> Findings {
        match e {
            ExpressionView::Range { field: Some(FieldType::MinuteOfDay), start, end, span } => match (parse_i32(start), parse_i32(end)) {
                (Some(a), Some(b)) => if !minute_ok(a) || !minute_ok(b) {
                    field_error(span, "minuteOfDay values must be between 0 and 1439"@)
                } else {
                    no_findings()
                },
                _ => no_findings(),
            },
            _ => no_findings(),
        }
    }

    open spec fn rule_name(&self) -> Seq<char> {
        "minute-of-day-field"@
    }

    fn name(&self) -> &'static str {
        "minute-of-day-field"
    }

    fn validate(&self, expr: &Expression, ctx: &ValidationContext) -> (r: ValidationResult) {
        if let Expression::Range { field: Some(FieldType::MinuteOfDay), start, end, span } = expr {
            if let (Some(a), Some(b)) = (parse_i32_str(start.as_str()), parse_i32_str(end.as_str())) {
                if !(0 <= a && a <= 1439) || !(0 <= b && b <= 1439) {
                    return field_error_result(*span, "minuteOfDay values must be between 0 and 1439");
                }
            }
        }
        ValidationResult::new()
    }

    fn can_validate(&self, expr: &Expression) -> (r: bool) {
        match expr {
            Expression::Range { field: Some(FieldType::MinuteOfDay), .. } => true,
            _ => false,
        }
    }
}

/// `authorFollowers` takes a range of follower counts, which are neither negative
/// nor longer than ten digits.
pub struct FollowerCountFieldRule;

pub open spec fn range_error(span: Span, message: Seq<char>) -> LintErrorView {
    LintErrorView::InvalidFieldRange { span, message }
}

impl ValidationRule for FollowerCountFieldRule {
    open spec fn applies_to(&self, e: ExpressionView) -> bool {
        e matches ExpressionView::Field { field: FieldType::AuthorFollowers, .. }
    }

    open spec fn findings(&self, e: ExpressionView, ctx: ValidationContext) -> Findings {
        match e {
            ExpressionView::Field { field: FieldType::AuthorFollowers, value, span } => match *value {
                ExpressionView::Range { start, end, .. } => match (parse_i64(start), parse_i64(end)) {
                    (Some(a), Some(b)) => Findings {
                        errors: (if a < 0 || b < 0 { seq![range_error(span, "Follower counts cannot be negative"@)] } else { Seq::empty() })
                            + (if int_text_len(b) > 10 { seq![range_error(span, "Follower counts cannot exceed 10 digits"@)] } else { Seq::empty() }),
                        warnings: Seq::empty(),
                    },
                    _ => field_error(span, "authorFollowers range values must be numbers"@),
                },
                _ => field_error(span, "authorFollowers must be used with a range (e.g., authorFollowers:[100 TO 1000])"@),
            },
            _ => no_findings(),
        }
    }

    open spec fn rule_name(&self) -> Seq<char> {
        "follower-count-field"@
    }

    fn name(&self) -> &'static str {
        "follower-count-field"
    }

    fn validate(&self, expr: &Expression, ctx: &ValidationContext) -> (r: ValidationResult) {
        match expr {
            Expression::Field { field: FieldType::AuthorFollowers, value, span } => {
                match &**value {
                    Expression::Range { start, end, .. } => {
                        match (parse_i64_str(start.as_str()), parse_i64_str(end.as_str())) {
                            (Some(a), Some(b)) => {
                                let mut errors: Vec<LintError> = Vec::new();
                                let ghost e0 = errors@;
                                if a < 0 || b < 0 {
                                    errors.push(LintError::InvalidFieldRange { span: *span, message: owned("Follower counts cannot be negative") });
                                }
                                let ghost e1 = errors@;
                                if i64_text_len(b) > 10 {
                                    errors.push(LintError::InvalidFieldRange { span: *span, message: owned("Follower counts cannot exceed 10 digits") });
                                }
                                let result = ValidationResult { errors, warnings: Vec::new() };
                                proof {
                                    let v: ExpressionView = (**value)@;
                                    assert(v == crate::ast::expr_view(**value));
                                    assert(v matches ExpressionView::Range { start: s0, end: s1, .. } && s0 == start@ && s1 == end@);
                                    let f = self.findings(expr@, *ctx);
                                    let neg: Seq<LintErrorView> = if a < 0 || b < 0 { seq![range_error(*span, "Follower counts cannot be negative"@)] } else { Seq::empty() };
                                    let long: Seq<LintErrorView> = if int_text_len(b as int) > 10 { seq![range_error(*span, "Follower counts cannot exceed 10 digits"@)] } else { Seq::empty() };
                                    assert(crate::error::errors_view(e1) =~= neg);
                                    assert(result@.errors =~= neg + long);
                                    assert(f.errors == neg + long);
                                    assert(result@.warnings =~= f.warnings);
                                }
                                result
                            },
                            _ => field_error_result(*span, "authorFollowers range values must be numbers"),
                        }
                    },
                    _ => field_error_result(*span, "authorFollowers must be used with a range (e.g., authorFollowers:[100 TO 1000])"),
                }
            },
            _ => ValidationResult::new(),
        }
    }

    fn can_validate(&self, expr: &Expression) -> (r: bool) {
        match expr {
            Expression::Field { field: FieldType::AuthorFollowers, .. } => true,
            _ => false,
        }
    }
}

/// A `guid` is made of digits, with underscores only between them.
pub struct GuidFieldRule;

pub open spec fn guid_chars_ok(v: Seq<char>) -> bool {
    forall|i: int| 0 <= i < v.len() ==> ascii_digit(#[trigger] v[i]) || v[i] == '_'
}

pub open spec fn guid_shape_bad(v: Seq<char>) -> bool {
    v.len() == 0 || (forall|i: int| 0 <= i < v.len() ==> #[trigger] v[i] == '_') || v[0] == '_' || v.last() == '_'
}

impl ValidationRule for GuidFieldRule {
    open spec fn applies_to(&self, e: ExpressionView) -> bool {
        e matches ExpressionView::Field { field: FieldType::Guid, .. }
    }

    open spec fn findings(&self, e: ExpressionView, ctx: ValidationContext) -> Findings {
        match e {
            ExpressionView::Field { field: FieldType::Guid, value, span } => match word_of(*value) {
                Some(v) => if !guid_chars_ok(v) {
                    field_error(span, "guid must contain only digits or digits with underscores (e.g., '123456789' or '123_456_789')"@)
                } else if guid_shape_bad(v) {
                    field_error(span, "guid must contain digits and cannot start or end with underscores"@)
                } else {
                    no_findings()
                },
                None => no_findings(),
            },
            _ => no_findings(),
        }
    }

    open spec fn rule_name(&self) -> Seq<char> {
        "guid-field"@
    }

    fn name(&self) -> &'static str {
        "guid-field"
    }

    fn validate(&self, expr: &Expression, ctx: &ValidationContext) -> (r: ValidationResult) {
        if let Expression::Field { field: FieldType::Guid, value, span } = expr {
            if let Some(v) = word_value(&**value) {
                let cs = chars_of(v.as_str());
                let mut chars_ok = true;
                let mut all_underscores = true;
                let mut i: usize = 0;
                while i < cs.len()
                    invariant
                        0 <= i <= cs@.len(),
                        cs@ == v@,
                        chars_ok == (forall|j: int| 0 <= j < i ==> ascii_digit(#[trigger] cs@[j]) || cs@[j] == '_'),
                        all_underscores == (forall|j: int| 0 <= j < i ==> #[trigger] cs@[j] == '_'),
                    decreases cs@.len() - i,
                {
                    let c = cs[i];
                    if !(('0' <= c && c <= '9') || c == '_') {
                        chars_ok = false;
                    }
                    if c != '_' {
                        all_underscores = false;
                    }
                    i += 1;
                }
                if !chars_ok {
                    return field_error_result(*span, "guid must contain only digits or digits with underscores (e.g., '123456789' or '123_456_789')");
                }
                let n = cs.len();
                if n == 0 || all_underscores || cs[0] == '_' || cs[n - 1] == '_' {
                    return field_error_result(*span, "guid must contain digits and cannot start or end with underscores");
                }
            }
        }
        ValidationResult::new()
    }

    fn can_validate(&self, expr: &Expression) -> (r: bool) {
        match expr {
            Expression::Field { field: FieldType::Guid, .. } => true,
            _ => false,
        }
    }
}

/// Whether `f` is the latitude or the longitude.
pub open spec fn is_coordinate(f: FieldType) -> bool {
    f == FieldType::Latitude || f == FieldType::Longitude
}

/// Latitudes lie from -90 to 90 and longitudes from -180 to 180; a range of them
/// must hold two numbers. Values are read as floating-point numbers (see
/// `NumberFacts`).
pub struct CoordinateFieldRule;

impl CoordinateFieldRule {
    /// Whether the rule looks at `e`: a latitude or longitude field, or a range of one.
    pub open spec fn applies_to(&self, e: ExpressionView) -> bool {
        ||| e matches ExpressionView::Field { field, .. } && is_coordinate(field)
        ||| e matches ExpressionView::Range { field: Some(f), .. } && is_coordinate(f)
    }

    /// What the rule finds in `e`, values reading as `numbers` says.
    pub open spec fn findings(&self, e: ExpressionView, numbers: Seq<(Seq<char>, NumberReading)>) -> Findings {
        match e {
            ExpressionView::Field { field, value, span } => if is_coordinate(field) {
                match word_of(*value) {
                    Some(c) => {
                        let r = reading_of(numbers, c);
                        if field == FieldType::Latitude {
                            if r.is_number && !r.within_latitude {
                                field_error(span, "Latitude must be between -90 and 90"@)
                            } else {
                                no_findings()
                            }
                        } else if r.is_number && !r.within_longitude {
                            field_error(span, "Longitude must be between -180 and 180"@)
                        } else {
                            no_findings()
                        }
                    },
                    None => no_findings(),
                }
            } else {
                no_findings()
            },
            ExpressionView::Range { field: Some(f), start, end, span } => if is_coordinate(f) {
                let a = reading_of(numbers, start);
                let b = reading_of(numbers, end);
                if a.is_number && b.is_number {
                    if f == FieldType::Latitude {
                        if !a.within_latitude || !b.within_latitude {
                            field_error(span, "Latitude values must be between -90 and 90"@)
                        } else {
                            no_findings()
                        }
                    } else if !a.within_longitude || !b.within_longitude {
                        field_error(span, "Longitude values must be between -180 and 180"@)
                    } else {
                        no_findings()
                    }
                } else if f == FieldType::Latitude {
                    field_error(span, "Latitude range values must be numbers"@)
                } else {
                    field_error(span, "Longitude range values must be numbers"@)
                }
            } else {
                no_findings()
            },
            _ => no_findings(),
        }
    }

    pub fn name(&self) -> (r: &'static str)
        ensures
            r@ == "coordinate-field"@,
    {
        "coordinate-field"
    }

    pub fn can_validate(&self, expr: &Expression) -> (r: bool)
        ensures
            r == self.applies_to(expr@),
    {
        match expr {
            Expression::Field { field: FieldType::Latitude, .. } => true,
            Expression::Field { field: FieldType::Longitude, .. } => true,
            Expression::Range { field: Some(FieldType::Latitude), .. } => true,
            Expression::Range { field: Some(FieldType::Longitude), .. } => true,
            _ => false,
        }
    }

    /// The findings in `expr`: see `findings`.
    pub fn validate(&self, expr: &Expression, ctx: &ValidationContext, numbers: &NumberFacts) -> (r: ValidationResult)
        ensures
            r@ == self.findings(expr@, numbers@),
    {
        match expr {
            Expression::Field { field, value, span } => {
                let latitude = match field {
                    FieldType::Latitude => true,
                    _ => false,
                };
                let longitude = match field {
                    FieldType::Longitude => true,
                    _ => false,
                };
                if !latitude && !longitude {
                    return ValidationResult::new();
                }
                match word_value(&**value) {
                    Some(coord) => {
                        let r = numbers.reading(coord.as_str());
                        if latitude {
                            if r.is_number && !r.within_latitude {
                                return field_error_result(*span, "Latitude must be between -90 and 90");
                            }
                        } else if r.is_number && !r.within_longitude {
                            return field_error_result(*span, "Longitude must be between -180 and 180");
                        }
                        ValidationResult::new()
                    },
                    None => ValidationResult::new(),
                }
            },
            Expression::Range { field: Some(f), start, end, span } => {
                let latitude = match f {
                    FieldType::Latitude => true,
                    _ => false,
                };
                let longitude = match f {
                    FieldType::Longitude => true,
                    _ => false,
                };
                if !latitude && !longitude {
                    return ValidationResult::new();
                }
                let a = numbers.reading(start.as_str());
                let b = numbers.reading(end.as_str());
                if a.is_number && b.is_number {
                    if latitude {
                        if !a.within_latitude || !b.within_latitude {
                            return field_error_result(*span, "Latitude values must be between -90 and 90");
                        }
                    } else if !a.within_longitude || !b.within_longitude {
                        return field_error_result(*span, "Longitude values must be between -180 and 180");
                    }
                    ValidationResult::new()
                } else if latitude {
                    field_error_result(*span, "Latitude range values must be numbers")
                } else {
                    field_error_result(*span, "Longitude range values must be numbers")
                }
            },
            _ => ValidationResult::new(),
        }
    }
}

pub open spec fn reversed_range_message() -> Seq<char> {
    "Range start value cannot be greater than end value"@
}

/// The start of a range cannot read as a number above its end.
pub struct RangeFieldRule;

impl RangeFieldRule {
    /// Whether the rule looks at `e`: a range.
    pub open spec fn applies_to(&self, e: ExpressionView) -> bool {
        e is Range
    }

    /// What the rule finds in `e`, values reading as `numbers` says.
    pub open spec fn findings(&self, e: ExpressionView, numbers: Seq<(Seq<char>, NumberReading)>) -> Findings {
        match e {
            ExpressionView::Range { start, end, span, .. } => if reads_above(numbers, start, end) {
                error_finding(LintErrorView::InvalidFieldRange { span, message: reversed_range_message() })
            } else {
                no_findings()
            },
            _ => no_findings(),
        }
    }

    pub fn name(&self) -> (r: &'static str)
        ensures
            r@ == "range-field"@,
    {
        "range-field"
    }

    pub fn can_validate(&self, expr: &Expression) -> (r: bool)
        ensures
            r == self.applies_to(expr@),
    {
        match expr {
            Expression::Range { .. } => true,
            _ => false,
        }
    }

    /// The findings in `expr`: see `findings`.
    pub fn validate(&self, expr: &Expression, ctx: &ValidationContext, numbers: &NumberFacts) -> (r: ValidationResult)
        ensures
            r@ == self.findings(expr@, numbers@),
    {
        match expr {
            Expression::Range { start, end, span, .. } => if numbers.above(start.as_str(), end.as_str()) {
                ValidationResult::with_error(LintError::InvalidFieldRange {
                    span: *span,
                    message: owned("Range start value cannot be greater than end value"),
                })
            } else {
                ValidationResult::new()
            },
            _ => ValidationResult::new(),
        }
    }
}

/// A coordinate range is checked at both its ends: swapping them changes nothing
/// the rule finds, and when both read as numbers it reports an error exactly when
/// one of them lies outside the latitudes (-90 to 90) or the longitudes (-180 to
/// 180).
pub proof fn law_coordinate_range_both_ends(
    f: FieldType,
    start: Seq<char>,
    end: Seq<char>,
    span: Span,
    numbers: Seq<(Seq<char>, NumberReading)>,
)
    requires
        is_coordinate(f),
    ensures
        CoordinateFieldRule.findings(ExpressionView::Range { field: Some(f), start, end, span }, numbers)
            == CoordinateFieldRule.findings(ExpressionView::Range { field: Some(f), start: end, end: start, span }, numbers),
        reading_of(numbers, start).is_number && reading_of(numbers, end).is_number ==> (
            CoordinateFieldRule.findings(ExpressionView::Range { field: Some(f), start, end, span }, numbers).errors.len() == 0
                <==> (if f == FieldType::Latitude {
                    reading_of(numbers, start).within_latitude && reading_of(numbers, end).within_latitude
                } else {
                    reading_of(numbers, start).within_longitude && reading_of(numbers, end).within_longitude
                })),
{
}

} // verus!
