//! Builds the syntax tree of a query from its tokens, by recursive descent.
//!
//! The grammar, loosest binding first:
//!   expression := and ("OR" and)*
//!   and        := not (("AND" | juxtaposition) not)*
//!   not        := "NOT" proximity | proximity ("NOT" proximity)*
//!   proximity  := primary ["~" number | "NEAR/n" primary | "NEAR/nf" primary]
//!   primary    := "(" expression ")" | "{" word+ "}" | "[" value "TO" value "]"
//!               | word ":" primary | term
use vstd::prelude::*;
use crate::ast::{
    BooleanOperator, Expression, ExpressionView, FieldType, ProximityOperator, Query, QueryView, Term,
    TermView, field_of_lowercase,
};
use crate::error::{
    char_span, LintError, LintErrorView, LintResult, LintWarning, LintWarningView, Position, Span,
    warnings_view,
};
use crate::lexer::{kind_tag, pos_bounded, token_text, tokens_bounded, Token, TokenType, TokenTypeView, TokenView, tokens_view};
use crate::number::parse_u32;
use crate::text::{concat2, concat3, has_char, lowercase_of, owned};

verus! {

// ---------------------------------------------------------------------------
// Comment filtering.
// ---------------------------------------------------------------------------

/// The message for a comment that is never closed.
pub open spec fn unclosed_comment_message() -> Seq<char> {
    "Please add a >>> mark to close this commented text."@
}

/// The tokens of `ts` from index `i` on that stand outside `<<< >>>` comments, the
/// markers themselves left out; `inside` tells whether index `i` is inside a comment
/// opened at `start`. An end of input inside a comment is an error at the `<<<`.
pub open spec fn filter_comments(ts: Seq<TokenView>, i: int, inside: bool, start: Span) -> Result<Seq<TokenView>, LintErrorView>
    decreases ts.len() - i,
{
    if i < 0 || i >= ts.len() {
        Ok(Seq::empty())
    } else {
        let t = ts[i];
        match t.kind {
            TokenTypeView::CommentStart => filter_comments(ts, i + 1, true, t.span),
            TokenTypeView::CommentEnd => filter_comments(ts, i + 1, false, start),
            TokenTypeView::Eof if inside => Err(LintErrorView::ValidationError { span: start, message: unclosed_comment_message() }),
            _ => if inside {
                filter_comments(ts, i + 1, inside, start)
            } else {
                match filter_comments(ts, i + 1, inside, start) {
                    Ok(rest) => Ok(seq![t] + rest),
                    Err(e) => Err(e),
                }
            },
        }
    }
}

/// Whether a token at or after `i` marks the end of input.
pub open spec fn has_eof_from(ts: Seq<TokenView>, i: int) -> bool {
    exists|e: int| i <= e < ts.len() && (#[trigger] ts[e]).kind is Eof
}

proof fn lemma_filter_keeps_eof(ts: Seq<TokenView>, i: int, inside: bool, start: Span)
    requires
        0 <= i,
        has_eof_from(ts, i),
        filter_comments(ts, i, inside, start) is Ok,
    ensures
        has_eof_from(filter_comments(ts, i, inside, start)->Ok_0, 0),
    decreases ts.len() - i,
{
    let t = ts[i];
    let e = choose|e: int| i <= e < ts.len() && (#[trigger] ts[e]).kind is Eof;
    let out = filter_comments(ts, i, inside, start)->Ok_0;
    if e == i {
        assert(!inside);
        let rest = filter_comments(ts, i + 1, inside, start)->Ok_0;
        assert(out == seq![t] + rest);
        assert(out[0] == t);
    } else {
        assert(ts[e].kind is Eof);
        assert(has_eof_from(ts, i + 1));
        match t.kind {
            TokenTypeView::CommentStart => lemma_filter_keeps_eof(ts, i + 1, true, t.span),
            TokenTypeView::CommentEnd => lemma_filter_keeps_eof(ts, i + 1, false, start),
            _ => {
                if t.kind is Eof {
                    assert(!inside);
                    let rest = filter_comments(ts, i + 1, inside, start)->Ok_0;
                    assert(out == seq![t] + rest);
                    assert(out[0] == t);
                } else if inside {
                    lemma_filter_keeps_eof(ts, i + 1, inside, start);
                } else {
                    lemma_filter_keeps_eof(ts, i + 1, inside, start);
                    let rest = filter_comments(ts, i + 1, inside, start)->Ok_0;
                    assert(out == seq![t] + rest);
                    let k = choose|k: int| 0 <= k < rest.len() && (#[trigger] rest[k]).kind is Eof;
                    assert(out[k + 1] == rest[k]);
                }
            },
        }
    }
}

// ---------------------------------------------------------------------------
// The grammar, over the filtered tokens.
// ---------------------------------------------------------------------------

/// The message of the warning given for two terms with no operator between them.
pub open spec fn implicit_and_message() -> Seq<char> {
    "Two or more terms without an operator between them are implicitly ANDed. Consider using explicit 'AND' operator for clarity"@
}

/// A parsed expression, the index of the first token after it, and the spans of
/// the implicit ANDs found in it, in order; or the first error.
pub type ParseOutcome = Result<(ExpressionView, int, Seq<Span>), LintErrorView>;

/// The kind of the token at `p`, or the end of input past the last token.
pub open spec fn kind_at(ts: Seq<TokenView>, p: int) -> TokenTypeView {
    if 0 <= p < ts.len() {
        ts[p].kind
    } else {
        TokenTypeView::Eof
    }
}

/// Whether the token at `p` ends the input.
pub open spec fn at_end(ts: Seq<TokenView>, p: int) -> bool {
    kind_at(ts, p) is Eof || p >= ts.len()
}

/// Whether the token at `p` is of the variant of `k` and not the end of input.
pub open spec fn is_kind(ts: Seq<TokenView>, p: int, k: TokenTypeView) -> bool {
    !at_end(ts, p) && kind_tag(kind_at(ts, p)) == kind_tag(k)
}

pub open spec fn binary(op: BooleanOperator, l: ExpressionView, r: ExpressionView) -> ExpressionView {
    ExpressionView::BooleanOp {
        operator: op,
        left: Box::new(l),
        right: Some(Box::new(r)),
        span: Span { start: l.span().start, end: r.span().end },
    }
}

/// Whether the token at `p` starts an operand joined to the one before by juxtaposition.
pub open spec fn implicit_and_candidate(ts: Seq<TokenView>, p: int) -> bool {
    !at_end(ts, p) && match kind_at(ts, p) {
        TokenTypeView::Word(_) | TokenTypeView::QuotedString(_) | TokenTypeView::Number(_)
        | TokenTypeView::Hashtag(_) | TokenTypeView::Mention(_) | TokenTypeView::LeftParen
        | TokenTypeView::LeftBrace => true,
        _ => false,
    }
}

/// expression := and ("OR" and)*
pub open spec fn parse_expression_spec(ts: Seq<TokenView>, p: int) -> ParseOutcome
    decreases ts.len() - p, 11nat,
{
    match parse_and_spec(ts, p) {
        Err(e) => Err(e),
        Ok((l, q, w)) => if p <= q <= ts.len() {
            or_tail(ts, l, q, w)
        } else {
            Ok((l, q, w))
        },
    }
}

/// The `("OR" and)*` part after `left`, which ends at `p`.
pub open spec fn or_tail(ts: Seq<TokenView>, left: ExpressionView, p: int, w: Seq<Span>) -> ParseOutcome
    decreases ts.len() - p, 10nat,
{
    if is_kind(ts, p, TokenTypeView::Or) {
        match parse_and_spec(ts, p + 1) {
            Err(e) => Err(e),
            Ok((r, q, w2)) => {
                let e = binary(BooleanOperator::Or, left, r);
                if p < q <= ts.len() {
                    or_tail(ts, e, q, w + w2)
                } else {
                    Ok((e, q, w + w2))
                }
            },
        }
    } else {
        Ok((left, p, w))
    }
}

/// and := not (("AND" | juxtaposition) not)*
pub open spec fn parse_and_spec(ts: Seq<TokenView>, p: int) -> ParseOutcome
    decreases ts.len() - p, 9nat,
{
    match parse_not_spec(ts, p) {
        Err(e) => Err(e),
        Ok((l, q, w)) => if p <= q <= ts.len() {
            and_tail(ts, l, q, w)
        } else {
            Ok((l, q, w))
        },
    }
}

/// The `(("AND" | juxtaposition) not)*` part after `left`, which ends at `p`. A
/// juxtaposition records the one-character span just after the left operand.
pub open spec fn and_tail(ts: Seq<TokenView>, left: ExpressionView, p: int, w: Seq<Span>) -> ParseOutcome
    decreases ts.len() - p, 8nat,
{
    if is_kind(ts, p, TokenTypeView::And) {
        match parse_not_spec(ts, p + 1) {
            Err(e) => Err(e),
            Ok((r, q, w2)) => {
                let e = binary(BooleanOperator::And, left, r);
                if p < q <= ts.len() {
                    and_tail(ts, e, q, w + w2)
                } else {
                    Ok((e, q, w + w2))
                }
            },
        }
    } else if implicit_and_candidate(ts, p) {
        match parse_not_spec(ts, p) {
            Err(e) => Err(e),
            Ok((r, q, w2)) => {
                let e = binary(BooleanOperator::And, left, r);
                let w3 = w + w2.push(char_span(left.span().end));
                if p < q <= ts.len() {
                    and_tail(ts, e, q, w3)
                } else {
                    Ok((e, q, w3))
                }
            },
        }
    } else {
        Ok((left, p, w))
    }
}

/// not := ["NOT"] proximity ("NOT" proximity)*
///
/// A leading `NOT` applies to its operand alone: it has no right operand.
pub open spec fn parse_not_spec(ts: Seq<TokenView>, p: int) -> ParseOutcome
    decreases ts.len() - p, 7nat,
{
    let first = if is_kind(ts, p, TokenTypeView::Not) {
        match parse_proximity_spec(ts, p + 1) {
            Err(e) => Err(e),
            Ok((r, q, w)) => Ok((leading_not(ts[p].span, r), q, w)),
        }
    } else {
        parse_proximity_spec(ts, p)
    };
    match first {
        Err(e) => Err(e),
        Ok((l, q, w)) => if p <= q <= ts.len() {
            not_tail(ts, l, q, w)
        } else {
            Ok((l, q, w))
        },
    }
}

/// The operand `operand` negated by a leading `NOT` at `op`.
pub open spec fn leading_not(op: Span, operand: ExpressionView) -> ExpressionView {
    ExpressionView::BooleanOp {
        operator: BooleanOperator::Not,
        left: Box::new(operand),
        right: None,
        span: Span { start: op.start, end: operand.span().end },
    }
}

/// The `("NOT" proximity)*` part after `left`, which ends at `p`.
pub open spec fn not_tail(ts: Seq<TokenView>, left: ExpressionView, p: int, w: Seq<Span>) -> ParseOutcome
    decreases ts.len() - p, 6nat,
{
    if is_kind(ts, p, TokenTypeView::Not) {
        match parse_proximity_spec(ts, p + 1) {
            Err(e) => Err(e),
            Ok((r, q, w2)) => {
                let e = binary(BooleanOperator::Not, left, r);
                if p < q <= ts.len() {
                    not_tail(ts, e, q, w + w2)
                } else {
                    Ok((e, q, w + w2))
                }
            },
        }
    } else {
        Ok((left, p, w))
    }
}

/// proximity := primary ["~" number | "NEAR/n" primary | "NEAR/nf" primary]
pub open spec fn parse_proximity_spec(ts: Seq<TokenView>, p: int) -> ParseOutcome
    decreases ts.len() - p, 5nat,
{
    match parse_primary_spec(ts, p) {
        Err(e) => Err(e),
        Ok((l, q, w)) => if p <= q <= ts.len() {
            proximity_after(ts, l, q, w)
        } else {
            Ok((l, q, w))
        },
    }
}

pub open spec fn tilde_error(span: Span, message: Seq<char>) -> Result<(ExpressionView, int), LintErrorView> {
    Err(LintErrorView::ParserError { span, message })
}

/// A `~` at `p` after the primary `left`: it must touch `left` and be followed at
/// once by a distance that fits in 32 bits, and `left` must be a term or a group.
/// The proximity spans `left` and the `~`; the parser resumes after the distance.
pub open spec fn tilde_rule(ts: Seq<TokenView>, left: ExpressionView, p: int) -> Result<(ExpressionView, int), LintErrorView> {
    let tilde = ts[p].span;
    if left.span().end.offset != tilde.start.offset {
        tilde_error(tilde, "The ~ operator must be immediately attached to the preceding term (e.g., apple~5, not apple ~5)."@)
    } else {
        match kind_at(ts, p + 1) {
            TokenTypeView::Number(num) => if tilde.end.offset == ts[p + 1].span.start.offset {
                match parse_u32(num) {
                    None => tilde_error(tilde, "Invalid proximity distance. Distance must be a positive number."@),
                    Some(d) => if left is Term || left is Group {
                        Ok((
                            ExpressionView::Proximity {
                                operator: ProximityOperator::Proximity { distance: Some(d) },
                                terms: seq![left],
                                span: Span { start: left.span().start, end: tilde.end },
                            },
                            p + 2,
                        ))
                    } else {
                        tilde_error(tilde, "The ~ operator should be used after a search term, quoted phrase, or grouped expression. If this should be part of a search term, it must be quoted (or escaped using the \\ character)."@)
                    },
                }
            } else {
                tilde_error(tilde, "The ~ operator requires a distance number immediately after it (e.g., ~5 for proximity within 5 words)."@)
            },
            _ => tilde_error(tilde, "The ~ operator requires a distance number (e.g., ~5 for proximity within 5 words)."@),
        }
    }
}

/// `left` joined by the proximity operator `op` to the outcome `right` of its
/// second operand.
pub open spec fn near_rule(op: ProximityOperator, left: ExpressionView, w: Seq<Span>, right: ParseOutcome) -> ParseOutcome {
    match right {
        Err(e) => Err(e),
        Ok((r, q, w2)) => Ok((
            ExpressionView::Proximity { operator: op, terms: seq![left, r], span: Span { start: left.span().start, end: r.span().end } },
            q,
            w + w2,
        )),
    }
}

/// What follows the primary `left`, which ends at `p`: a `~` distance, a `NEAR/n`
/// or `NEAR/nf` operand, or nothing.
pub open spec fn proximity_after(ts: Seq<TokenView>, left: ExpressionView, p: int, w: Seq<Span>) -> ParseOutcome
    decreases ts.len() - p, 4nat,
{
    if is_kind(ts, p, TokenTypeView::Tilde) {
        match tilde_rule(ts, left, p) {
            Ok((e, q)) => Ok((e, q, w)),
            Err(x) => Err(x),
        }
    } else {
        match kind_at(ts, p) {
            TokenTypeView::Near(d) => near_rule(ProximityOperator::Near { distance: d }, left, w, parse_primary_spec(ts, p + 1)),
            TokenTypeView::NearForward(d) => near_rule(ProximityOperator::NearForward { distance: d }, left, w, parse_primary_spec(ts, p + 1)),
            _ => Ok((left, p, w)),
        }
    }
}

pub open spec fn expected(ts: Seq<TokenView>, p: int, what: Seq<char>) -> LintErrorView {
    LintErrorView::ExpectedToken { span: ts[p].span, expected: what, found: token_text(kind_at(ts, p)) }
}

/// How the value of a field with an unknown name is written after the colon.
pub open spec fn field_value_text(v: ExpressionView) -> Seq<char> {
    match v {
        ExpressionView::Term { term: TermView::Word { value }, .. } => value,
        ExpressionView::Term { term: TermView::Phrase { value }, .. } => "\""@ + value + "\""@,
        _ => "unknown"@,
    }
}

/// The value of a `field:value` pair: a range takes the field, when the field is known.
pub open spec fn field_value(f: Option<FieldType>, v: ExpressionView) -> ExpressionView {
    match v {
        ExpressionView::Range { field, start, end, span } => match f {
            Some(ft) => ExpressionView::Range { field: Some(ft), start, end, span },
            None => v,
        },
        _ => v,
    }
}

/// A group opened at `p`, with `inner` the outcome of the expression inside it.
pub open spec fn group_rule(ts: Seq<TokenView>, p: int, inner: ParseOutcome) -> ParseOutcome {
    match inner {
        Err(e) => Err(e),
        Ok((e, q, w)) => if is_kind(ts, q, TokenTypeView::RightParen) {
            Ok((ExpressionView::Group { expression: Box::new(e), span: Span { start: ts[p].span.start, end: ts[q].span.end } }, q + 1, w))
        } else {
            Err(expected(ts, q, ")"@))
        },
    }
}

/// A case-sensitive word `{word}` opened at `p`.
pub open spec fn case_sensitive_rule(ts: Seq<TokenView>, p: int) -> ParseOutcome {
    match kind_at(ts, p + 1) {
        TokenTypeView::Word(word) => match case_words(ts, p + 2, word) {
            Ok((value, q)) => Ok((
                ExpressionView::Term { term: TermView::CaseSensitive { value }, span: Span { start: ts[p].span.start, end: ts[q].span.end } },
                q + 1,
                Seq::empty(),
            )),
            Err(e) => Err(e),
        },
        _ => Err(expected(ts, p + 1, "word"@)),
    }
}

/// The words of a case-sensitive term from `q` on, after the words `value`, each
/// after a space, and the position of the `}` that closes it.
pub open spec fn case_words(ts: Seq<TokenView>, q: int, value: Seq<char>) -> Result<(Seq<char>, int), LintErrorView>
    decreases ts.len() - q,
{
    if q < 0 || q >= ts.len() {
        Err(expected(ts, q, "}"@))
    } else {
        match ts[q].kind {
            TokenTypeView::Word(w) => case_words(ts, q + 1, value + " "@ + w),
            TokenTypeView::RightBrace => Ok((value, q)),
            _ => Err(expected(ts, q, "}"@)),
        }
    }
}

/// Whether a `word:` pair starts at `p`.
pub open spec fn field_start(ts: Seq<TokenView>, p: int) -> bool {
    kind_at(ts, p) is Word && p + 1 < ts.len() && kind_at(ts, p + 1) is Colon
}

/// The expression for the pair `word:value`, where `word` spans `word_span`.
pub open spec fn field_pair_view(word: Seq<char>, word_span: Span, value: ExpressionView) -> ExpressionView {
    let f = field_of_lowercase(lowercase_of(word));
    let v = field_value(f, value);
    let span = Span { start: word_span.start, end: v.span().end };
    match f {
        Some(ft) => ExpressionView::Field { field: ft, value: Box::new(v), span },
        None => ExpressionView::Term { term: TermView::Word { value: word + ":"@ + field_value_text(v) }, span },
    }
}

/// The pair `word:value` starting at `p`, with `value` the outcome after the colon.
pub open spec fn field_rule(ts: Seq<TokenView>, p: int, value: ParseOutcome) -> ParseOutcome {
    match value {
        Err(e) => Err(e),
        Ok((v, q, w)) => Ok((field_pair_view(kind_at(ts, p)->Word_0, ts[p].span, v), q, w)),
    }
}

/// primary := "(" expression ")" | "{" word+ "}" | "[" value "TO" value "]"
///          | word ":" primary | term
///
/// A field name that names no field makes the pair a single word `name:value`.
pub open spec fn parse_primary_spec(ts: Seq<TokenView>, p: int) -> ParseOutcome
    decreases ts.len() - p, 3nat,
{
    if is_kind(ts, p, TokenTypeView::LeftParen) {
        group_rule(ts, p, parse_expression_spec(ts, p + 1))
    } else if is_kind(ts, p, TokenTypeView::LeftBrace) {
        case_sensitive_rule(ts, p)
    } else if is_kind(ts, p, TokenTypeView::LeftBracket) {
        parse_range_spec(ts, p + 1)
    } else if field_start(ts, p) {
        field_rule(ts, p, parse_primary_spec(ts, p + 2))
    } else {
        parse_term_spec(ts, p)
    }
}

/// The text of a token that can bound a range.
pub open spec fn range_value(k: TokenTypeView) -> Option<Seq<char>> {
    match k {
        TokenTypeView::Word(w) => Some(w),
        TokenTypeView::Number(w) => Some(w),
        _ => None,
    }
}

/// The rest of a range `[start TO end]`, from the token after the `[` at `p - 1`.
pub open spec fn parse_range_spec(ts: Seq<TokenView>, p: int) -> ParseOutcome {
    match range_value(kind_at(ts, p)) {
        None => Err(expected(ts, p, "number or word"@)),
        Some(start) => if is_kind(ts, p + 1, TokenTypeView::To) {
            match range_value(kind_at(ts, p + 2)) {
                None => Err(expected(ts, p + 2, "number or word"@)),
                Some(end) => if is_kind(ts, p + 3, TokenTypeView::RightBracket) {
                    Ok((
                        ExpressionView::Range { field: None, start, end, span: Span { start: ts[p - 1].span.start, end: ts[p + 3].span.end } },
                        p + 4,
                        Seq::empty(),
                    ))
                } else {
                    Err(expected(ts, p + 3, "]"@))
                },
            }
        } else {
            Err(expected(ts, p + 1, "TO"@))
        },
    }
}

/// The term that a word stands for: a wildcard if it holds `*`, else a replacement
/// if it holds `?`, else a plain word.
pub open spec fn word_term(w: Seq<char>) -> TermView {
    if w.contains('*') {
        TermView::Wildcard { value: w }
    } else if w.contains('?') {
        TermView::Replacement { value: w }
    } else {
        TermView::Word { value: w }
    }
}

/// term := word | quoted string | number | hashtag | mention
pub open spec fn parse_term_spec(ts: Seq<TokenView>, p: int) -> ParseOutcome {
    let sp = ts[p].span;
    match kind_at(ts, p) {
        TokenTypeView::Word(w) => Ok((ExpressionView::Term { term: word_term(w), span: sp }, p + 1, Seq::empty())),
        TokenTypeView::QuotedString(s) => Ok((ExpressionView::Term { term: TermView::Phrase { value: s }, span: sp }, p + 1, Seq::empty())),
        TokenTypeView::Number(n) => Ok((ExpressionView::Term { term: TermView::Word { value: n }, span: sp }, p + 1, Seq::empty())),
        TokenTypeView::Hashtag(h) => Ok((ExpressionView::Term { term: TermView::Hashtag { value: h }, span: sp }, p + 1, Seq::empty())),
        TokenTypeView::Mention(m) => Ok((ExpressionView::Term { term: TermView::Mention { value: m }, span: sp }, p + 1, Seq::empty())),
        k => Err(LintErrorView::UnexpectedToken { span: sp, token: token_text(k) }),
    }
}

/// The warning given for an implicit AND at `span`.
pub open spec fn implicit_and_warning(span: Span) -> LintWarningView {
    LintWarningView::PotentialTypo { span, message: implicit_and_message() }
}

pub struct ParseResultView {
    pub query: QueryView,
    pub warnings: Seq<LintWarningView>,
}

/// A whole query from the token at `p`, with `acc` the implicit ANDs recorded
/// before: the expression must be followed by the end of input.
pub open spec fn parse_query_spec(ts: Seq<TokenView>, p: int, acc: Seq<Span>) -> Result<ParseResultView, LintErrorView> {
    match parse_expression_spec(ts, p) {
        Err(e) => Err(e),
        Ok((e, q, w)) => if !at_end(ts, q) {
            Err(LintErrorView::UnexpectedToken { span: ts[q].span, token: token_text(kind_at(ts, q)) })
        } else {
            Ok(ParseResultView {
                query: QueryView { expression: e, span: e.span() },
                warnings: (acc + w).map_values(|s: Span| implicit_and_warning(s)),
            })
        },
    }
}


/// Whether each of the spans `w` covers one character.
pub open spec fn one_char_spans(w: Seq<Span>) -> bool {
    forall|i: int| 0 <= i < w.len() ==> #[trigger] w[i] == char_span(w[i].start)
}

/// Whether a successful outcome records only one-character spans.
pub open spec fn records_one_char(o: ParseOutcome) -> bool {
    o matches Ok((e, q, w)) ==> one_char_spans(w)
}

proof fn lemma_one_char_concat(a: Seq<Span>, b: Seq<Span>)
    requires
        one_char_spans(a),
        one_char_spans(b),
    ensures
        one_char_spans(a + b),
{
    assert forall|i: int| 0 <= i < (a + b).len() implies #[trigger] (a + b)[i] == char_span((a + b)[i].start) by {
        if i >= a.len() {
            assert((a + b)[i] == b[i - a.len()]);
        } else {
            assert((a + b)[i] == a[i]);
        }
    }
}

proof fn lemma_one_char_expression(ts: Seq<TokenView>, p: int)
    ensures
        records_one_char(parse_expression_spec(ts, p)),
    decreases ts.len() - p, 11nat,
{
    lemma_one_char_and(ts, p);
    if let Ok((l, q, w)) = parse_and_spec(ts, p) {
        if p <= q <= ts.len() {
            lemma_one_char_or_tail(ts, l, q, w);
        }
    }
}

proof fn lemma_one_char_or_tail(ts: Seq<TokenView>, left: ExpressionView, p: int, w: Seq<Span>)
    requires
        one_char_spans(w),
    ensures
        records_one_char(or_tail(ts, left, p, w)),
    decreases ts.len() - p, 10nat,
{
    if is_kind(ts, p, TokenTypeView::Or) {
        lemma_one_char_and(ts, p + 1);
        if let Ok((r, q, w2)) = parse_and_spec(ts, p + 1) {
            lemma_one_char_concat(w, w2);
            if p < q <= ts.len() {
                lemma_one_char_or_tail(ts, binary(BooleanOperator::Or, left, r), q, w + w2);
            }
        }
    }
}

proof fn lemma_one_char_and(ts: Seq<TokenView>, p: int)
    ensures
        records_one_char(parse_and_spec(ts, p)),
    decreases ts.len() - p, 9nat,
{
    lemma_one_char_not(ts, p);
    if let Ok((l, q, w)) = parse_not_spec(ts, p) {
        if p <= q <= ts.len() {
            lemma_one_char_and_tail(ts, l, q, w);
        }
    }
}

proof fn lemma_one_char_and_tail(ts: Seq<TokenView>, left: ExpressionView, p: int, w: Seq<Span>)
    requires
        one_char_spans(w),
    ensures
        records_one_char(and_tail(ts, left, p, w)),
    decreases ts.len() - p, 8nat,
{
    if is_kind(ts, p, TokenTypeView::And) {
        lemma_one_char_not(ts, p + 1);
        if let Ok((r, q, w2)) = parse_not_spec(ts, p + 1) {
            lemma_one_char_concat(w, w2);
            if p < q <= ts.len() {
                lemma_one_char_and_tail(ts, binary(BooleanOperator::And, left, r), q, w + w2);
            }
        }
    } else if implicit_and_candidate(ts, p) {
        lemma_one_char_not(ts, p);
        if let Ok((r, q, w2)) = parse_not_spec(ts, p) {
            let mark = char_span(left.span().end);
            assert(one_char_spans(seq![mark]));
            assert(w2.push(mark) =~= w2 + seq![mark]);
            lemma_one_char_concat(w2, seq![mark]);
            lemma_one_char_concat(w, w2.push(mark));
            if p < q <= ts.len() {
                lemma_one_char_and_tail(ts, binary(BooleanOperator::And, left, r), q, w + w2.push(mark));
            }
        }
    }
}

proof fn lemma_one_char_not(ts: Seq<TokenView>, p: int)
    ensures
        records_one_char(parse_not_spec(ts, p)),
    decreases ts.len() - p, 7nat,
{
    if is_kind(ts, p, TokenTypeView::Not) {
        lemma_one_char_proximity(ts, p + 1);
    } else {
        lemma_one_char_proximity(ts, p);
    }
    let first = if is_kind(ts, p, TokenTypeView::Not) {
        match parse_proximity_spec(ts, p + 1) {
            Err(e) => Err(e),
            Ok((r, q, w)) => Ok((leading_not(ts[p].span, r), q, w)),
        }
    } else {
        parse_proximity_spec(ts, p)
    };
    if let Ok((l, q, w)) = first {
        if p <= q <= ts.len() {
            lemma_one_char_not_tail(ts, l, q, w);
        }
    }
}

proof fn lemma_one_char_not_tail(ts: Seq<TokenView>, left: ExpressionView, p: int, w: Seq<Span>)
    requires
        one_char_spans(w),
    ensures
        records_one_char(not_tail(ts, left, p, w)),
    decreases ts.len() - p, 6nat,
{
    if is_kind(ts, p, TokenTypeView::Not) {
        lemma_one_char_proximity(ts, p + 1);
        if let Ok((r, q, w2)) = parse_proximity_spec(ts, p + 1) {
            lemma_one_char_concat(w, w2);
            if p < q <= ts.len() {
                lemma_one_char_not_tail(ts, binary(BooleanOperator::Not, left, r), q, w + w2);
            }
        }
    }
}

proof fn lemma_one_char_proximity(ts: Seq<TokenView>, p: int)
    ensures
        records_one_char(parse_proximity_spec(ts, p)),
    decreases ts.len() - p, 5nat,
{
    lemma_one_char_primary(ts, p);
    if let Ok((l, q, w)) = parse_primary_spec(ts, p) {
        if p <= q <= ts.len() {
            lemma_one_char_after(ts, l, q, w);
        }
    }
}

proof fn lemma_one_char_after(ts: Seq<TokenView>, left: ExpressionView, p: int, w: Seq<Span>)
    requires
        one_char_spans(w),
    ensures
        records_one_char(proximity_after(ts, left, p, w)),
    decreases ts.len() - p, 4nat,
{
    if !is_kind(ts, p, TokenTypeView::Tilde) {
        match kind_at(ts, p) {
            TokenTypeView::Near(_) | TokenTypeView::NearForward(_) => {
                lemma_one_char_primary(ts, p + 1);
                if let Ok((r, q, w2)) = parse_primary_spec(ts, p + 1) {
                    lemma_one_char_concat(w, w2);
                }
            },
            _ => {},
        }
    }
}

proof fn lemma_one_char_primary(ts: Seq<TokenView>, p: int)
    ensures
        records_one_char(parse_primary_spec(ts, p)),
    decreases ts.len() - p, 3nat,
{
    if is_kind(ts, p, TokenTypeView::LeftParen) {
        lemma_one_char_expression(ts, p + 1);
    } else if is_kind(ts, p, TokenTypeView::LeftBrace) {
    } else if is_kind(ts, p, TokenTypeView::LeftBracket) {
    } else if field_start(ts, p) {
        lemma_one_char_primary(ts, p + 2);
    }
}

/// Every warning of the parser is the potential typo of an implicit AND, over one
/// character: the one just after the AND's left operand.
pub proof fn law_parser_warnings(ts: Seq<TokenView>)
    ensures
        parse_query_spec(ts, 0, Seq::empty()) matches Ok(r) ==> forall|i: int| 0 <= i < r.warnings.len() ==> {
            &&& #[trigger] r.warnings[i] is PotentialTypo
            &&& r.warnings[i]->PotentialTypo_message == implicit_and_message()
            &&& r.warnings[i]->PotentialTypo_span == char_span(r.warnings[i]->PotentialTypo_span.start)
        },
{
    lemma_one_char_expression(ts, 0);
    if let Ok((e, q, w)) = parse_expression_spec(ts, 0) {
        assert(Seq::<Span>::empty() + w =~= w);
    }
}

/// Whether `e`, read from the tokens `p` to `q` (`q` left out), starts where token
/// `p` starts and ends where one of those tokens ends.
pub open spec fn spans_tokens(ts: Seq<TokenView>, p: int, q: int, e: ExpressionView) -> bool {
    &&& 0 <= p < q <= ts.len()
    &&& e.span().start == ts[p].span.start
    &&& exists|k: int| p <= k < q && #[trigger] ts[k].span.end == e.span().end
}

/// Whether a successful outcome of parsing from `p` spans the tokens it read.
pub open spec fn outcome_spans(ts: Seq<TokenView>, p: int, o: ParseOutcome) -> bool {
    o matches Ok((e, q, w)) ==> spans_tokens(ts, p, q, e)
}

/// `binary(op, l, r)` spans the tokens of `l` and then those of `r`.
proof fn lemma_binary_spans(ts: Seq<TokenView>, p0: int, p: int, q: int, op: BooleanOperator, l: ExpressionView, r: ExpressionView)
    requires
        spans_tokens(ts, p0, p, l),
        spans_tokens(ts, p + 1, q, r) || spans_tokens(ts, p, q, r),
    ensures
        spans_tokens(ts, p0, q, binary(op, l, r)),
{
    let k = choose|k: int| (p < k < q || p <= k < q) && #[trigger] ts[k].span.end == r.span().end;
    assert(p0 <= k < q && ts[k].span.end == binary(op, l, r).span().end);
}

proof fn lemma_case_words(ts: Seq<TokenView>, q: int, value: Seq<char>)
    ensures
        case_words(ts, q, value) matches Ok((v, e)) ==> q <= e < ts.len() && ts[e].kind is RightBrace,
    decreases ts.len() - q,
{
    if 0 <= q < ts.len() {
        if let TokenTypeView::Word(w) = ts[q].kind {
            lemma_case_words(ts, q + 1, value + " "@ + w);
        }
    }
}

proof fn lemma_spans_expression(ts: Seq<TokenView>, p: int)
    ensures
        outcome_spans(ts, p, parse_expression_spec(ts, p)),
    decreases ts.len() - p, 11nat,
{
    lemma_spans_and(ts, p);
    if let Ok((l, q, w)) = parse_and_spec(ts, p) {
        lemma_spans_or_tail(ts, p, l, q, w);
    }
}

proof fn lemma_spans_or_tail(ts: Seq<TokenView>, p0: int, left: ExpressionView, p: int, w: Seq<Span>)
    requires
        spans_tokens(ts, p0, p, left),
    ensures
        outcome_spans(ts, p0, or_tail(ts, left, p, w)),
    decreases ts.len() - p, 10nat,
{
    if is_kind(ts, p, TokenTypeView::Or) {
        lemma_spans_and(ts, p + 1);
        if let Ok((r, q, w2)) = parse_and_spec(ts, p + 1) {
            lemma_binary_spans(ts, p0, p, q, BooleanOperator::Or, left, r);
            lemma_spans_or_tail(ts, p0, binary(BooleanOperator::Or, left, r), q, w + w2);
        }
    }
}

proof fn lemma_spans_and(ts: Seq<TokenView>, p: int)
    ensures
        outcome_spans(ts, p, parse_and_spec(ts, p)),
    decreases ts.len() - p, 9nat,
{
    lemma_spans_not(ts, p);
    if let Ok((l, q, w)) = parse_not_spec(ts, p) {
        lemma_spans_and_tail(ts, p, l, q, w);
    }
}

proof fn lemma_spans_and_tail(ts: Seq<TokenView>, p0: int, left: ExpressionView, p: int, w: Seq<Span>)
    requires
        spans_tokens(ts, p0, p, left),
    ensures
        outcome_spans(ts, p0, and_tail(ts, left, p, w)),
    decreases ts.len() - p, 8nat,
{
    if is_kind(ts, p, TokenTypeView::And) {
        lemma_spans_not(ts, p + 1);
        if let Ok((r, q, w2)) = parse_not_spec(ts, p + 1) {
            lemma_binary_spans(ts, p0, p, q, BooleanOperator::And, left, r);
            lemma_spans_and_tail(ts, p0, binary(BooleanOperator::And, left, r), q, w + w2);
        }
    } else if implicit_and_candidate(ts, p) {
        lemma_spans_not(ts, p);
        if let Ok((r, q, w2)) = parse_not_spec(ts, p) {
            lemma_binary_spans(ts, p0, p, q, BooleanOperator::And, left, r);
            let w3 = w + w2.push(char_span(left.span().end));
            lemma_spans_and_tail(ts, p0, binary(BooleanOperator::And, left, r), q, w3);
        }
    }
}

proof fn lemma_spans_not(ts: Seq<TokenView>, p: int)
    ensures
        outcome_spans(ts, p, parse_not_spec(ts, p)),
    decreases ts.len() - p, 7nat,
{
    if is_kind(ts, p, TokenTypeView::Not) {
        lemma_spans_proximity(ts, p + 1);
        if let Ok((r, q, w)) = parse_proximity_spec(ts, p + 1) {
            let k = choose|k: int| p + 1 <= k < q && #[trigger] ts[k].span.end == r.span().end;
            assert(ts[k].span.end == leading_not(ts[p].span, r).span().end);
            assert(spans_tokens(ts, p, q, leading_not(ts[p].span, r)));
        }
    } else {
        lemma_spans_proximity(ts, p);
    }
    let first = if is_kind(ts, p, TokenTypeView::Not) {
        match parse_proximity_spec(ts, p + 1) {
            Err(e) => Err(e),
            Ok((r, q, w)) => Ok((leading_not(ts[p].span, r), q, w)),
        }
    } else {
        parse_proximity_spec(ts, p)
    };
    if let Ok((l, q, w)) = first {
        lemma_spans_not_tail(ts, p, l, q, w);
    }
}

proof fn lemma_spans_not_tail(ts: Seq<TokenView>, p0: int, left: ExpressionView, p: int, w: Seq<Span>)
    requires
        spans_tokens(ts, p0, p, left),
    ensures
        outcome_spans(ts, p0, not_tail(ts, left, p, w)),
    decreases ts.len() - p, 6nat,
{
    if is_kind(ts, p, TokenTypeView::Not) {
        lemma_spans_proximity(ts, p + 1);
        if let Ok((r, q, w2)) = parse_proximity_spec(ts, p + 1) {
            lemma_binary_spans(ts, p0, p, q, BooleanOperator::Not, left, r);
            lemma_spans_not_tail(ts, p0, binary(BooleanOperator::Not, left, r), q, w + w2);
        }
    }
}

proof fn lemma_spans_proximity(ts: Seq<TokenView>, p: int)
    ensures
        outcome_spans(ts, p, parse_proximity_spec(ts, p)),
    decreases ts.len() - p, 5nat,
{
    lemma_spans_primary(ts, p);
    if let Ok((l, q, w)) = parse_primary_spec(ts, p) {
        lemma_spans_after(ts, p, l, q, w);
    }
}

proof fn lemma_spans_after(ts: Seq<TokenView>, p0: int, left: ExpressionView, p: int, w: Seq<Span>)
    requires
        spans_tokens(ts, p0, p, left),
    ensures
        outcome_spans(ts, p0, proximity_after(ts, left, p, w)),
    decreases ts.len() - p, 4nat,
{
    if is_kind(ts, p, TokenTypeView::Tilde) {
        if let Ok((e, q)) = tilde_rule(ts, left, p) {
            assert(ts[p].span.end == e.span().end);
            assert(spans_tokens(ts, p0, q, e));
        }
    } else {
        match kind_at(ts, p) {
            TokenTypeView::Near(_) | TokenTypeView::NearForward(_) => {
                lemma_spans_primary(ts, p + 1);
                if let Ok((r, q, w2)) = parse_primary_spec(ts, p + 1) {
                    let k = choose|k: int| p + 1 <= k < q && #[trigger] ts[k].span.end == r.span().end;
                    assert(p0 <= k < q);
                }
            },
            _ => {},
        }
    }
}

proof fn lemma_spans_primary(ts: Seq<TokenView>, p: int)
    ensures
        outcome_spans(ts, p, parse_primary_spec(ts, p)),
    decreases ts.len() - p, 3nat,
{
    if is_kind(ts, p, TokenTypeView::LeftParen) {
        lemma_spans_expression(ts, p + 1);
        if let Ok((e, q, w)) = parse_expression_spec(ts, p + 1) {
            if is_kind(ts, q, TokenTypeView::RightParen) {
                let g = ExpressionView::Group { expression: Box::new(e), span: Span { start: ts[p].span.start, end: ts[q].span.end } };
                assert(ts[q].span.end == g.span().end);
            }
        }
    } else if is_kind(ts, p, TokenTypeView::LeftBrace) {
        if let TokenTypeView::Word(word) = kind_at(ts, p + 1) {
            lemma_case_words(ts, p + 2, word);
            if let Ok((value, q)) = case_words(ts, p + 2, word) {
                let c = ExpressionView::Term { term: TermView::CaseSensitive { value }, span: Span { start: ts[p].span.start, end: ts[q].span.end } };
                assert(ts[q].span.end == c.span().end);
            }
        }
    } else if is_kind(ts, p, TokenTypeView::LeftBracket) {
        if let Ok((e, q, w)) = parse_range_spec(ts, p + 1) {
            assert(ts[p + 4].span.end == e.span().end);
        }
    } else if field_start(ts, p) {
        lemma_spans_primary(ts, p + 2);
        if let Ok((v, q, w)) = parse_primary_spec(ts, p + 2) {
            let k = choose|k: int| p + 2 <= k < q && #[trigger] ts[k].span.end == v.span().end;
            let word = kind_at(ts, p)->Word_0;
            let f = field_of_lowercase(lowercase_of(word));
            assert(field_value(f, v).span() == v.span());
            assert(ts[k].span.end == field_pair_view(word, ts[p].span, v).span().end);
        }
    } else {
        if let Ok((e, q, w)) = parse_term_spec(ts, p) {
            assert(ts[p].span.end == e.span().end);
        }
    }
}

/// A successful parse of the tokens from `p` reads at least one token, and the
/// expression it gives starts where its first token starts and ends where one of
/// the tokens it read ends: the first token of a group, a range or a case-sensitive
/// term is its opening bracket, and the last its closing one. A whole query spans
/// its expression, from the start of its first token.
pub proof fn law_parse_spans(ts: Seq<TokenView>, p: int, acc: Seq<Span>)
    ensures
        parse_expression_spec(ts, p) matches Ok((e, q, w)) ==> {
            &&& 0 <= p < q <= ts.len()
            &&& e.span().start == ts[p].span.start
            &&& exists|k: int| p <= k < q && #[trigger] ts[k].span.end == e.span().end
        },
        parse_query_spec(ts, p, acc) matches Ok(r) ==> {
            &&& r.query.span == r.query.expression.span()
            &&& r.query.span.start == ts[p].span.start
        },
{
    lemma_spans_expression(ts, p);
}

/// Whether a token of kind `k` is a term on its own: a word, a quoted phrase, a
/// number, a hashtag or a mention.
pub open spec fn term_token(k: TokenTypeView) -> bool {
    k is Word || k is QuotedString || k is Number || k is Hashtag || k is Mention
}

proof fn lemma_single_term(ts: Seq<TokenView>, p: int)
    requires
        0 <= p,
        p + 1 < ts.len(),
        term_token(ts[p].kind),
        !(ts[p + 1].kind is Colon),
        !(ts[p + 1].kind is Tilde),
        !(ts[p + 1].kind is Near),
        !(ts[p + 1].kind is NearForward),
        !(ts[p + 1].kind is Not),
    ensures
        parse_term_spec(ts, p) matches Ok((e, q, w)) && q == p + 1 && w.len() == 0 && e is Term && e.span() == ts[p].span,
        parse_not_spec(ts, p) == parse_term_spec(ts, p),
{
    let t = parse_term_spec(ts, p);
    assert(parse_primary_spec(ts, p) == t);
    let (e, q, w) = t->Ok_0;
    assert(proximity_after(ts, e, q, w) == t);
    assert(parse_proximity_spec(ts, p) == t);
    assert(not_tail(ts, e, q, w) == t);
}

/// Two terms side by side are joined by an implicit AND, with one warning of it
/// just after the first term: for any term tokens `a` and `b` (a word, a phrase, a
/// number, a hashtag or a mention) before the end of input, the query `a b` parses
/// to the AND of `a` and `b`, never to an error.
pub proof fn law_juxtaposed_terms(ts: Seq<TokenView>)
    requires
        ts.len() == 3,
        term_token(ts[0].kind),
        term_token(ts[1].kind),
        ts[2].kind is Eof,
    ensures
        parse_query_spec(ts, 0, Seq::empty()) matches Ok(r) && {
            &&& r.query.expression matches ExpressionView::BooleanOp { operator: BooleanOperator::And, left, right: Some(right), .. }
                && *left is Term && left.span() == ts[0].span && *right is Term && right.span() == ts[1].span
            &&& r.warnings == seq![implicit_and_warning(char_span(ts[0].span.end))]
        },
{
    lemma_single_term(ts, 0);
    let (l, q, w) = parse_term_spec(ts, 0)->Ok_0;
    let t1 = parse_term_spec(ts, 1);
    assert(t1 matches Ok((e, q1, w1)) && q1 == 2 && w1.len() == 0 && e is Term && e.span() == ts[1].span);
    assert(parse_primary_spec(ts, 1) == t1);
    let (r, q1, w1) = t1->Ok_0;
    assert(proximity_after(ts, r, 2, w1) == t1);
    assert(parse_proximity_spec(ts, 1) == t1);
    assert(not_tail(ts, r, 2, w1) == t1);
    assert(parse_not_spec(ts, 1) == t1);
    assert(implicit_and_candidate(ts, 1));
    let e = binary(BooleanOperator::And, l, r);
    let w3 = w + w1.push(char_span(l.span().end));
    assert(w3 =~= seq![char_span(ts[0].span.end)]);
    assert(and_tail(ts, e, 2, w3) == Ok::<(ExpressionView, int, Seq<Span>), LintErrorView>((e, 2, w3)));
    assert(and_tail(ts, l, 1, w) == Ok::<(ExpressionView, int, Seq<Span>), LintErrorView>((e, 2, w3)));
    assert(parse_and_spec(ts, 0) == Ok::<(ExpressionView, int, Seq<Span>), LintErrorView>((e, 2, w3)));
    assert(or_tail(ts, e, 2, w3) == Ok::<(ExpressionView, int, Seq<Span>), LintErrorView>((e, 2, w3)));
    assert(parse_expression_spec(ts, 0) == Ok::<(ExpressionView, int, Seq<Span>), LintErrorView>((e, 2, w3)));
    assert((Seq::<Span>::empty() + w3).map_values(|s: Span| implicit_and_warning(s)) =~= seq![implicit_and_warning(char_span(ts[0].span.end))]);
}

// ---------------------------------------------------------------------------
// The rules' outcomes under names that the solver does not unfold by itself: the
// parser's steps speak of these, and each lemma below unfolds one of them by one
// step, in terms of the others.
// ---------------------------------------------------------------------------

#[verifier::opaque]
spec fn expression_result(ts: Seq<TokenView>, p: int) -> ParseOutcome {
    parse_expression_spec(ts, p)
}

#[verifier::opaque]
spec fn or_tail_result(ts: Seq<TokenView>, left: ExpressionView, p: int, w: Seq<Span>) -> ParseOutcome {
    or_tail(ts, left, p, w)
}

#[verifier::opaque]
spec fn and_result(ts: Seq<TokenView>, p: int) -> ParseOutcome {
    parse_and_spec(ts, p)
}

#[verifier::opaque]
spec fn and_tail_result(ts: Seq<TokenView>, left: ExpressionView, p: int, w: Seq<Span>) -> ParseOutcome {
    and_tail(ts, left, p, w)
}

#[verifier::opaque]
spec fn not_result(ts: Seq<TokenView>, p: int) -> ParseOutcome {
    parse_not_spec(ts, p)
}

#[verifier::opaque]
spec fn not_tail_result(ts: Seq<TokenView>, left: ExpressionView, p: int, w: Seq<Span>) -> ParseOutcome {
    not_tail(ts, left, p, w)
}

#[verifier::opaque]
spec fn proximity_result(ts: Seq<TokenView>, p: int) -> ParseOutcome {
    parse_proximity_spec(ts, p)
}

#[verifier::opaque]
spec fn primary_result(ts: Seq<TokenView>, p: int) -> ParseOutcome {
    parse_primary_spec(ts, p)
}

proof fn lemma_expression_result(ts: Seq<TokenView>, p: int)
    ensures
        expression_result(ts, p) == parse_expression_spec(ts, p),
{
    reveal(expression_result);
}

proof fn unfold_expression(ts: Seq<TokenView>, p: int)
    ensures
        expression_result(ts, p) == match and_result(ts, p) {
            Err(e) => Err(e),
            Ok((l, q, w)) => if p <= q <= ts.len() { or_tail_result(ts, l, q, w) } else { Ok((l, q, w)) },
        },
{
    reveal(expression_result);
    reveal(and_result);
    reveal(or_tail_result);
}

proof fn unfold_or_tail(ts: Seq<TokenView>, left: ExpressionView, p: int, w: Seq<Span>)
    ensures
        or_tail_result(ts, left, p, w) == if is_kind(ts, p, TokenTypeView::Or) {
            match and_result(ts, p + 1) {
                Err(e) => Err(e),
                Ok((r, q, w2)) => if p < q <= ts.len() {
                    or_tail_result(ts, binary(BooleanOperator::Or, left, r), q, w + w2)
                } else {
                    Ok((binary(BooleanOperator::Or, left, r), q, w + w2))
                },
            }
        } else {
            Ok((left, p, w))
        },
{
    reveal(or_tail_result);
    reveal(and_result);
}

proof fn unfold_and(ts: Seq<TokenView>, p: int)
    ensures
        and_result(ts, p) == match not_result(ts, p) {
            Err(e) => Err(e),
            Ok((l, q, w)) => if p <= q <= ts.len() { and_tail_result(ts, l, q, w) } else { Ok((l, q, w)) },
        },
{
    reveal(and_result);
    reveal(not_result);
    reveal(and_tail_result);
}

proof fn unfold_and_tail(ts: Seq<TokenView>, left: ExpressionView, p: int, w: Seq<Span>)
    ensures
        and_tail_result(ts, left, p, w) == if is_kind(ts, p, TokenTypeView::And) {
            match not_result(ts, p + 1) {
                Err(e) => Err(e),
                Ok((r, q, w2)) => if p < q <= ts.len() {
                    and_tail_result(ts, binary(BooleanOperator::And, left, r), q, w + w2)
                } else {
                    Ok((binary(BooleanOperator::And, left, r), q, w + w2))
                },
            }
        } else if implicit_and_candidate(ts, p) {
            match not_result(ts, p) {
                Err(e) => Err(e),
                Ok((r, q, w2)) => if p < q <= ts.len() {
                    and_tail_result(ts, binary(BooleanOperator::And, left, r), q, w + w2.push(char_span(left.span().end)))
                } else {
                    Ok((binary(BooleanOperator::And, left, r), q, w + w2.push(char_span(left.span().end))))
                },
            }
        } else {
            Ok((left, p, w))
        },
{
    reveal(and_tail_result);
    reveal(not_result);
}

proof fn unfold_not(ts: Seq<TokenView>, p: int)
    ensures
        not_result(ts, p) == match (if is_kind(ts, p, TokenTypeView::Not) {
            match proximity_result(ts, p + 1) {
                Err(e) => Err(e),
                Ok((r, q, w)) => Ok((leading_not(ts[p].span, r), q, w)),
            }
        } else {
            proximity_result(ts, p)
        }) {
            Err(e) => Err(e),
            Ok((l, q, w)) => if p <= q <= ts.len() { not_tail_result(ts, l, q, w) } else { Ok((l, q, w)) },
        },
{
    reveal(not_result);
    reveal(proximity_result);
    reveal(not_tail_result);
}

proof fn unfold_not_tail(ts: Seq<TokenView>, left: ExpressionView, p: int, w: Seq<Span>)
    ensures
        not_tail_result(ts, left, p, w) == if is_kind(ts, p, TokenTypeView::Not) {
            match proximity_result(ts, p + 1) {
                Err(e) => Err(e),
                Ok((r, q, w2)) => if p < q <= ts.len() {
                    not_tail_result(ts, binary(BooleanOperator::Not, left, r), q, w + w2)
                } else {
                    Ok((binary(BooleanOperator::Not, left, r), q, w + w2))
                },
            }
        } else {
            Ok((left, p, w))
        },
{
    reveal(not_tail_result);
    reveal(proximity_result);
}

/// The rest of a proximity after its primary `left`, in terms of `primary_result`.
spec fn proximity_step(ts: Seq<TokenView>, left: ExpressionView, p: int, w: Seq<Span>) -> ParseOutcome {
    if is_kind(ts, p, TokenTypeView::Tilde) {
        match tilde_rule(ts, left, p) {
            Ok((e, q)) => Ok((e, q, w)),
            Err(x) => Err(x),
        }
    } else {
        match kind_at(ts, p) {
            TokenTypeView::Near(d) => near_rule(ProximityOperator::Near { distance: d }, left, w, primary_result(ts, p + 1)),
            TokenTypeView::NearForward(d) => near_rule(ProximityOperator::NearForward { distance: d }, left, w, primary_result(ts, p + 1)),
            _ => Ok((left, p, w)),
        }
    }
}

proof fn unfold_proximity(ts: Seq<TokenView>, p: int)
    ensures
        proximity_result(ts, p) == match primary_result(ts, p) {
            Err(e) => Err(e),
            Ok((l, q, w)) => if p <= q <= ts.len() { proximity_step(ts, l, q, w) } else { Ok((l, q, w)) },
        },
{
    reveal(proximity_result);
    reveal(primary_result);
}

proof fn unfold_primary(ts: Seq<TokenView>, p: int)
    ensures
        primary_result(ts, p) == if is_kind(ts, p, TokenTypeView::LeftParen) {
            group_rule(ts, p, expression_result(ts, p + 1))
        } else if is_kind(ts, p, TokenTypeView::LeftBrace) {
            case_sensitive_rule(ts, p)
        } else if is_kind(ts, p, TokenTypeView::LeftBracket) {
            parse_range_spec(ts, p + 1)
        } else if field_start(ts, p) {
            field_rule(ts, p, primary_result(ts, p + 2))
        } else {
            parse_term_spec(ts, p)
        },
{
    reveal(primary_result);
    reveal(expression_result);
}

/// The start of an unopened comment, for the filter before any `<<<`.
pub open spec fn no_span() -> Span {
    Span { start: Position { line: 0, column: 0, offset: 0 }, end: Position { line: 0, column: 0, offset: 0 } }
}

/// The tokens of `ts` outside comments, or the error for a comment left open.
pub open spec fn comment_filter(ts: Seq<TokenView>) -> Result<Seq<TokenView>, LintErrorView> {
    filter_comments(ts, 0, false, no_span())
}

// ---------------------------------------------------------------------------
// The parser.
// ---------------------------------------------------------------------------

/// A parsed query and the warnings found while parsing it.
#[derive(Debug)]
pub struct ParseResult {
    pub query: Query,
    pub warnings: Vec<LintWarning>,
}

impl View for ParseResult {
    type V = ParseResultView;

    open spec fn view(&self) -> ParseResultView {
        ParseResultView { query: self.query@, warnings: warnings_view(self.warnings@) }
    }
}

/// A recursive descent parser over the tokens of a query.
pub struct Parser {
    tokens: Vec<Token>,
    current: usize,
    implicit_and_spans: Vec<Span>,
}

/// What a parse step returns agrees with the grammar's outcome `out`: on success
/// the parser stands after the expression and has recorded its implicit ANDs.
pub open spec fn agrees(out: ParseOutcome, r: LintResult<Expression>, before: Parser, after: Parser) -> bool {
    match out {
        Ok((e, q, w)) => {
            &&& r matches Ok(x)
            &&& x@ == e
            &&& after.pos() == q
            &&& q > before.pos()
            &&& after.spans() == before.spans() + w
            &&& pos_bounded(e.span().end)
        },
        Err(err) => r matches Err(x) && x@ == err,
    }
}

/// A parse step keeps the tokens and moves only forward.
pub open spec fn steps(before: Parser, after: Parser) -> bool {
    &&& after.wf()
    &&& after.toks() == before.toks()
    &&& after.pos() >= before.pos()
}

proof fn lemma_exprs_view_one(a: Expression)
    ensures
        crate::ast::exprs_view(seq![a]) == seq![a@],
{
    assert(seq![a].drop_last() =~= Seq::<Expression>::empty());
    assert(crate::ast::exprs_view(Seq::<Expression>::empty()) =~= Seq::<ExpressionView>::empty());
    assert(crate::ast::exprs_view(seq![a]) =~= seq![a@]);
}

proof fn lemma_exprs_view_two(a: Expression, b: Expression)
    ensures
        crate::ast::exprs_view(seq![a, b]) == seq![a@, b@],
{
    lemma_exprs_view_one(a);
    assert(seq![a, b].drop_last() =~= seq![a]);
    assert(crate::ast::exprs_view(seq![a, b]) =~= seq![a@, b@]);
}

impl Parser {
    /// The tokens being parsed, comments left out.
    pub closed spec fn toks(&self) -> Seq<TokenView> {
        tokens_view(self.tokens@)
    }

    /// The index of the next token.
    pub closed spec fn pos(&self) -> int {
        self.current as int
    }

    /// The spans of the implicit ANDs met so far.
    pub closed spec fn spans(&self) -> Seq<Span> {
        self.implicit_and_spans@
    }

    /// The next token exists: an end-of-input token lies at or after it, so the
    /// parser never reads past the tokens.
    pub closed spec fn wf(&self) -> bool {
        &&& has_eof_from(self.toks(), self.pos())
        &&& tokens_bounded(self.toks())
    }

    proof fn lemma_in_range(&self)
        requires
            self.wf(),
        ensures
            0 <= self.pos() < self.toks().len(),
            self.toks().len() == self.tokens@.len(),
    {
    }

    /// A parser over `tokens`, with the tokens inside `<<< >>>` comments and the
    /// markers left out; an error at the `<<<` of a comment that is never closed.
    pub fn new(tokens: Vec<Token>) -> (r: Result<Self, LintError>)
        requires
            has_eof_from(tokens_view(tokens@), 0),
            tokens_bounded(tokens_view(tokens@)),
        ensures
            match comment_filter(tokens_view(tokens@)) {
                Ok(f) => r matches Ok(p) && p.toks() == f && p.pos() == 0 && p.spans() == Seq::<Span>::empty() && p.wf(),
                Err(e) => r matches Err(x) && x@ == e,
            },
    {
        let ghost ts = tokens_view(tokens@);
        let n = tokens.len();
        let mut source = tokens;
        let mut rest: Vec<Token> = Vec::new();
        while source.len() > 0
            invariant
                n == tokens@.len(),
                source@.len() + rest@.len() == n,
                forall|k: int| 0 <= k < source@.len() ==> #[trigger] source@[k] == tokens@[k],
                forall|k: int| 0 <= k < rest@.len() ==> #[trigger] rest@[k] == tokens@[n - 1 - k],
            decreases source@.len(),
        {
            let t = source.pop().unwrap();
            rest.push(t);
        }
        let mut filtered_tokens: Vec<Token> = Vec::new();
        let mut inside_comment = false;
        let mut comment_start_span: Option<Span> = None;
        let ghost mut start = no_span();
        let mut i: usize = 0;
        while i < n
            invariant
                ts == tokens_view(tokens@),
                n == tokens@.len(),
                0 <= i <= n,
                rest@.len() == n - i,
                forall|k: int| 0 <= k < n - i ==> #[trigger] rest@[k] == tokens@[n - 1 - k],
                inside_comment ==> comment_start_span == Some(start),
                tokens_bounded(ts),
                tokens_bounded(tokens_view(filtered_tokens@)),
                comment_filter(ts) == match filter_comments(ts, i as int, inside_comment, start) {
                    Ok(tail) => Ok(tokens_view(filtered_tokens@) + tail),
                    Err(e) => Err(e),
                },
            decreases n - i,
        {
            let token = rest.pop().unwrap();
            assert(token == tokens@[i as int]);
            assert(ts[i as int] == token@);
            let tag = token.token_type.tag();
            let ghost before = filtered_tokens@;
            if tag == 19 {
                inside_comment = true;
                comment_start_span = Some(token.span);
                proof { start = token.span; }
            } else if tag == 20 {
                inside_comment = false;
                comment_start_span = None;
            } else if tag == 25 && inside_comment {
                return Err(LintError::ValidationError {
                    span: comment_start_span.unwrap(),
                    message: owned("Please add a >>> mark to close this commented text."),
                });
            } else if !inside_comment {
                filtered_tokens.push(token);
                assert(tokens_view(filtered_tokens@) =~= tokens_view(before).push(token@));
                proof {
                    match filter_comments(ts, i + 1, inside_comment, start) {
                        Ok(tail) => {
                            assert(tokens_view(before) + (seq![token@] + tail) =~= tokens_view(filtered_tokens@) + tail);
                        },
                        Err(e) => {},
                    }
                }
            }
            i += 1;
        }
        assert(tokens_view(filtered_tokens@) + Seq::<TokenView>::empty() =~= tokens_view(filtered_tokens@));
        proof {
            lemma_filter_keeps_eof(ts, 0, false, no_span());
        }
        Ok(Parser { tokens: filtered_tokens, current: 0, implicit_and_spans: Vec::new() })
    }

    fn is_at_end(&self) -> (r: bool)
        requires
            self.wf(),
        ensures
            r == at_end(self.toks(), self.pos()),
    {
        matches!(self.tokens[self.current].token_type, TokenType::Eof) || self.current >= self.tokens.len()
    }

    fn check(&self, token_type: &TokenType) -> (r: bool)
        requires
            self.wf(),
        ensures
            r == is_kind(self.toks(), self.pos(), token_type@),
    {
        if self.is_at_end() {
            false
        } else {
            self.tokens[self.current].token_type.tag() == token_type.tag()
        }
    }

    fn advance(&mut self)
        requires
            old(self).wf(),
        ensures
            final(self).wf(),
            final(self).toks() == old(self).toks(),
            final(self).spans() == old(self).spans(),
            final(self).pos() == if at_end(old(self).toks(), old(self).pos()) { old(self).pos() } else { old(self).pos() + 1 },
    {
        if !self.is_at_end() {
            let ghost e = choose|e: int| self.pos() <= e < self.toks().len() && (#[trigger] self.toks()[e]).kind is Eof;
            proof {
                self.lemma_in_range();
                assert(self.toks()[e].kind is Eof);
                assert(e != self.pos());
            }
            let len = self.tokens.len();
            assert(self.current < len);
            self.current += 1;
            assert(self.toks()[e].kind is Eof);
        }
    }

    fn match_token(&mut self, token_type: &TokenType) -> (r: bool)
        requires
            old(self).wf(),
        ensures
            final(self).wf(),
            final(self).toks() == old(self).toks(),
            final(self).spans() == old(self).spans(),
            r == is_kind(old(self).toks(), old(self).pos(), token_type@),
            final(self).pos() == if r { old(self).pos() + 1 } else { old(self).pos() },
    {
        if self.check(token_type) {
            self.advance();
            true
        } else {
            false
        }
    }

    /// The token before the next one.
    fn previous(&self) -> (r: &Token)
        requires
            self.wf(),
            self.pos() >= 1,
        ensures
            r@ == self.toks()[self.pos() - 1],
    {
        &self.tokens[self.current - 1]
    }

    /// The next token.
    fn peek(&self) -> (r: &Token)
        requires
            self.wf(),
        ensures
            r@ == self.toks()[self.pos()],
    {
        &self.tokens[self.current]
    }

    /// The range `[start TO end]` after its `[`.
    fn parse_range(&mut self) -> (r: LintResult<Expression>)
        requires
            old(self).wf(),
            old(self).pos() >= 1,
        ensures
            final(self).spans() == old(self).spans(),
            steps(*old(self), *final(self)),
            agrees(parse_range_spec(old(self).toks(), old(self).pos()), r, *old(self), *final(self)),
    {
        proof { self.lemma_in_range(); }
        let start_span = self.previous().span;
        let start_value = match &self.tokens[self.current].token_type {
            TokenType::Word(w) => Some(w.clone()),
            TokenType::Number(w) => Some(w.clone()),
            _ => None,
        };
        let start_value = match start_value {
            Some(v) => v,
            None => return Err(self.expected_error("number or word")),
        };
        self.advance();
        if !self.match_token(&TokenType::To) {
            return Err(self.expected_error("TO"));
        }
        proof { self.lemma_in_range(); }
        let end_value = match &self.tokens[self.current].token_type {
            TokenType::Word(w) => Some(w.clone()),
            TokenType::Number(w) => Some(w.clone()),
            _ => None,
        };
        let end_value = match end_value {
            Some(v) => v,
            None => return Err(self.expected_error("number or word")),
        };
        self.advance();
        if !self.match_token(&TokenType::RightBracket) {
            return Err(self.expected_error("]"));
        }
        let end_span = self.previous().span;
        Ok(Expression::Range { field: None, start: start_value, end: end_value, span: Span::new(start_span.start, end_span.end) })
    }

    /// term := word | quoted string | number | hashtag | mention
    fn parse_term(&mut self) -> (r: LintResult<Expression>)
        requires
            old(self).wf(),
        ensures
            final(self).spans() == old(self).spans(),
            steps(*old(self), *final(self)),
            agrees(parse_term_spec(old(self).toks(), old(self).pos()), r, *old(self), *final(self)),
    {
        proof { self.lemma_in_range(); }
        let span = self.peek().span;
        let term = match &self.tokens[self.current].token_type {
            TokenType::Word(w) => Some(
                if has_char(w.as_str(), '*') {
                    Term::Wildcard { value: w.clone() }
                } else if has_char(w.as_str(), '?') {
                    Term::Replacement { value: w.clone() }
                } else {
                    Term::Word { value: w.clone() }
                },
            ),
            TokenType::QuotedString(v) => Some(Term::Phrase { value: v.clone() }),
            TokenType::Number(v) => Some(Term::Word { value: v.clone() }),
            TokenType::Hashtag(v) => Some(Term::Hashtag { value: v.clone() }),
            TokenType::Mention(v) => Some(Term::Mention { value: v.clone() }),
            _ => None,
        };
        match term {
            Some(term) => {
                self.advance();
                Ok(Expression::Term { term, span })
            },
            None => Err(LintError::UnexpectedToken { span, token: self.tokens[self.current].token_type.describe() }),
        }
    }

    /// Parses the tokens from the current one into a query, which must be followed
    /// by the end of input, with a warning for each implicit AND met.
    pub fn parse(&mut self) -> (r: LintResult<ParseResult>)
        requires
            old(self).wf(),
        ensures
            final(self).wf(),
            final(self).toks() == old(self).toks(),
            match parse_query_spec(old(self).toks(), old(self).pos(), old(self).spans()) {
                Ok(v) => r matches Ok(x) && x@ == v,
                Err(e) => r matches Err(x) && x@ == e,
            },
    {
        proof {
            lemma_expression_result(self.toks(), self.pos());
        }
        let expression = match self.parse_expression() {
            Ok(e) => e,
            Err(e) => return Err(e),
        };
        let span = *expression.span();
        if !self.is_at_end() {
            proof {
                self.lemma_in_range();
            }
            return Err(LintError::UnexpectedToken { span: self.peek().span, token: self.tokens[self.current].token_type.describe() });
        }
        let mut warnings: Vec<LintWarning> = Vec::new();
        let mut i: usize = 0;
        while i < self.implicit_and_spans.len()
            invariant
                0 <= i <= self.spans().len(),
                warnings_view(warnings@) =~= self.spans().take(i as int).map_values(|s: Span| implicit_and_warning(s)),
            decreases self.spans().len() - i,
        {
            let ghost before = warnings@;
            warnings.push(LintWarning::PotentialTypo {
                span: self.implicit_and_spans[i],
                message: owned("Two or more terms without an operator between them are implicitly ANDed. Consider using explicit 'AND' operator for clarity"),
            });
            assert(self.spans().take(i + 1) =~= self.spans().take(i as int).push(self.spans()[i as int]));
            assert(warnings_view(warnings@) =~= warnings_view(before).push(warnings@[i as int]@));
            i += 1;
        }
        assert(self.spans().take(self.spans().len() as int) =~= self.spans());
        Ok(ParseResult { query: Query { expression, span }, warnings })
    }

    /// expression := and ("OR" and)*
    fn parse_expression(&mut self) -> (r: LintResult<Expression>)
        requires
            old(self).wf(),
        ensures
            steps(*old(self), *final(self)),
            agrees(expression_result(old(self).toks(), old(self).pos()), r, *old(self), *final(self)),
        decreases old(self).toks().len() - old(self).pos(), 4nat,
    {
        let ghost ts = self.toks();
        let ghost p0 = self.pos();
        let ghost s0 = self.spans();
        proof {
            unfold_expression(ts, p0);
        }
        let mut left = match self.parse_and_expression() {
            Ok(e) => e,
            Err(e) => return Err(e),
        };
        let ghost mut w: Seq<Span> = and_result(ts, p0)->Ok_0.2;
        proof {
            self.lemma_in_range();
        }
        loop
            invariant
                self.wf(),
                self.toks() == ts,
                ts == old(self).toks(),
                p0 == old(self).pos(),
                s0 == old(self).spans(),
                self.pos() > p0,
                self.spans() == s0 + w,
                pos_bounded(left@.span().end),
                expression_result(ts, p0) == or_tail_result(ts, left@, self.pos(), w),
            ensures
                !is_kind(ts, self.pos(), TokenTypeView::Or),
            decreases ts.len() - self.pos(),
        {
            let ghost p1 = self.pos();
            let ghost l1 = left@;
            proof {
                unfold_or_tail(ts, l1, p1, w);
            }
            if !self.match_token(&TokenType::Or) {
                break;
            }
            let right = match self.parse_and_expression() {
                Ok(e) => e,
                Err(e) => return Err(e),
            };
            let ghost rv = right@;
            proof {
                self.lemma_in_range();
                let w2 = and_result(ts, p1 + 1)->Ok_0.2;
                assert(self.spans() =~= s0 + (w + w2));
                w = w + w2;
            }
            let span = Span::new(left.span().start, right.span().end);
            left = Expression::BooleanOp { operator: BooleanOperator::Or, left: Box::new(left), right: Some(Box::new(right)), span };
            assert(left@ == binary(BooleanOperator::Or, l1, rv));
        }
        proof {
            unfold_or_tail(ts, left@, self.pos(), w);
        }
        Ok(left)
    }

    /// and := not (("AND" | juxtaposition) not)*
    fn parse_and_expression(&mut self) -> (r: LintResult<Expression>)
        requires
            old(self).wf(),
        ensures
            steps(*old(self), *final(self)),
            agrees(and_result(old(self).toks(), old(self).pos()), r, *old(self), *final(self)),
        decreases old(self).toks().len() - old(self).pos(), 3nat,
    {
        let ghost ts = self.toks();
        let ghost p0 = self.pos();
        let ghost s0 = self.spans();
        proof {
            unfold_and(ts, p0);
        }
        let mut left = match self.parse_not_expression() {
            Ok(e) => e,
            Err(e) => return Err(e),
        };
        let ghost mut w: Seq<Span> = not_result(ts, p0)->Ok_0.2;
        proof {
            self.lemma_in_range();
        }
        loop
            invariant
                self.wf(),
                self.toks() == ts,
                ts == old(self).toks(),
                p0 == old(self).pos(),
                s0 == old(self).spans(),
                self.pos() > p0,
                self.spans() == s0 + w,
                pos_bounded(left@.span().end),
                and_result(ts, p0) == and_tail_result(ts, left@, self.pos(), w),
            ensures
                !is_kind(ts, self.pos(), TokenTypeView::And),
                !implicit_and_candidate(ts, self.pos()),
            decreases ts.len() - self.pos(),
        {
            let ghost p1 = self.pos();
            let ghost l1 = left@;
            proof {
                unfold_and_tail(ts, l1, p1, w);
            }
            if self.match_token(&TokenType::And) {
                let right = match self.parse_not_expression() {
                    Ok(e) => e,
                    Err(e) => return Err(e),
                };
                let ghost rv = right@;
                proof {
                    self.lemma_in_range();
                    let w2 = not_result(ts, p1 + 1)->Ok_0.2;
                    assert(self.spans() =~= s0 + (w + w2));
                    w = w + w2;
                }
                let span = Span::new(left.span().start, right.span().end);
                left = Expression::BooleanOp { operator: BooleanOperator::And, left: Box::new(left), right: Some(Box::new(right)), span };
                assert(left@ == binary(BooleanOperator::And, l1, rv));
            } else if self.is_implicit_and_candidate() {
                let right = match self.parse_not_expression() {
                    Ok(e) => e,
                    Err(e) => return Err(e),
                };
                let ghost rv = right@;
                let marker = Span::single_character(left.span().end);
                let span = Span::new(left.span().start, right.span().end);
                left = Expression::BooleanOp { operator: BooleanOperator::And, left: Box::new(left), right: Some(Box::new(right)), span };
                assert(left@ == binary(BooleanOperator::And, l1, rv));
                self.implicit_and_spans.push(marker);
                proof {
                    self.lemma_in_range();
                    let w2 = not_result(ts, p1)->Ok_0.2;
                    assert(self.spans() =~= s0 + (w + w2.push(marker)));
                    w = w + w2.push(marker);
                }
            } else {
                break;
            }
        }
        proof {
            unfold_and_tail(ts, left@, self.pos(), w);
        }
        Ok(left)
    }

    /// not := "NOT" proximity | proximity ("NOT" proximity)*
    fn parse_not_expression(&mut self) -> (r: LintResult<Expression>)
        requires
            old(self).wf(),
        ensures
            steps(*old(self), *final(self)),
            agrees(not_result(old(self).toks(), old(self).pos()), r, *old(self), *final(self)),
        decreases old(self).toks().len() - old(self).pos(), 2nat,
    {
        let ghost ts = self.toks();
        let ghost p0 = self.pos();
        let ghost s0 = self.spans();
        proof {
            unfold_not(ts, p0);
            self.lemma_in_range();
        }
        let leading = self.match_token(&TokenType::Not);
        let operator_span = if leading { self.previous().span } else { self.peek().span };
        let operand = match self.parse_proximity_expression() {
            Ok(e) => e,
            Err(e) => return Err(e),
        };
        let ghost ov = operand@;
        let mut left = if leading {
            let span = Span::new(operator_span.start, operand.span().end);
            Expression::BooleanOp { operator: BooleanOperator::Not, left: Box::new(operand), right: None, span }
        } else {
            operand
        };
        assert(leading ==> left@ == leading_not(ts[p0].span, ov));
        let ghost first = if leading { proximity_result(ts, p0 + 1) } else { proximity_result(ts, p0) };
        let ghost mut w: Seq<Span> = first->Ok_0.2;
        proof {
            self.lemma_in_range();
        }
        loop
            invariant
                self.wf(),
                self.toks() == ts,
                ts == old(self).toks(),
                p0 == old(self).pos(),
                s0 == old(self).spans(),
                self.pos() > p0,
                self.spans() == s0 + w,
                pos_bounded(left@.span().end),
                not_result(ts, p0) == not_tail_result(ts, left@, self.pos(), w),
            ensures
                !is_kind(ts, self.pos(), TokenTypeView::Not),
            decreases ts.len() - self.pos(),
        {
            let ghost p1 = self.pos();
            let ghost l1 = left@;
            proof {
                unfold_not_tail(ts, l1, p1, w);
            }
            if !self.match_token(&TokenType::Not) {
                break;
            }
            let right = match self.parse_proximity_expression() {
                Ok(e) => e,
                Err(e) => return Err(e),
            };
            let ghost rv = right@;
            proof {
                self.lemma_in_range();
                let w2 = proximity_result(ts, p1 + 1)->Ok_0.2;
                assert(self.spans() =~= s0 + (w + w2));
                w = w + w2;
            }
            let span = Span::new(left.span().start, right.span().end);
            left = Expression::BooleanOp { operator: BooleanOperator::Not, left: Box::new(left), right: Some(Box::new(right)), span };
            assert(left@ == binary(BooleanOperator::Not, l1, rv));
        }
        proof {
            unfold_not_tail(ts, left@, self.pos(), w);
        }
        Ok(left)
    }

    /// The `~` distance after `left`, whose `~` is the previous token.
    fn parse_tilde(&mut self, left: Expression) -> (r: LintResult<Expression>)
        requires
            old(self).wf(),
            old(self).pos() >= 1,
            pos_bounded(left@.span().end),
        ensures
            final(self).wf(),
            final(self).toks() == old(self).toks(),
            final(self).spans() == old(self).spans(),
            final(self).pos() >= old(self).pos(),
            match tilde_rule(old(self).toks(), left@, old(self).pos() - 1) {
                Ok((e, q)) => r matches Ok(x) && x@ == e && final(self).pos() == q && pos_bounded(e.span().end),
                Err(err) => r matches Err(x) && x@ == err,
            },
    {
        proof {
            self.lemma_in_range();
        }
        let tilde_span = self.previous().span;
        if left.span().end.offset != tilde_span.start.offset {
            return Err(LintError::ParserError {
                span: tilde_span,
                message: owned("The ~ operator must be immediately attached to the preceding term (e.g., apple~5, not apple ~5)."),
            });
        }
        let number_start = self.peek().span.start.offset;
        let distance: Option<Option<u32>> = match &self.tokens[self.current].token_type {
            TokenType::Number(num_str) => {
                if tilde_span.end.offset == number_start {
                    let cs = crate::text::chars_of(num_str.as_str());
                    assert(cs@.subrange(0, cs@.len() as int) =~= cs@);
                    Some(crate::number::parse_u32_chars(&cs, 0, cs.len()))
                } else {
                    return Err(LintError::ParserError {
                        span: tilde_span,
                        message: owned("The ~ operator requires a distance number immediately after it (e.g., ~5 for proximity within 5 words)."),
                    });
                }
            },
            _ => None,
        };
        let distance = match distance {
            Some(d) => d,
            None => {
                return Err(LintError::ParserError {
                    span: tilde_span,
                    message: owned("The ~ operator requires a distance number (e.g., ~5 for proximity within 5 words)."),
                });
            },
        };
        self.advance();
        let d = match distance {
            Some(d) => d,
            None => {
                return Err(LintError::ParserError {
                    span: tilde_span,
                    message: owned("Invalid proximity distance. Distance must be a positive number."),
                });
            },
        };
        let valid_context = match &left {
            Expression::Term { .. } => true,
            Expression::Group { .. } => true,
            _ => false,
        };
        if !valid_context {
            return Err(LintError::ParserError {
                span: tilde_span,
                message: owned("The ~ operator should be used after a search term, quoted phrase, or grouped expression. If this should be part of a search term, it must be quoted (or escaped using the \\ character)."),
            });
        }
        let span = Span::new(left.span().start, tilde_span.end);
        let mut terms: Vec<Expression> = Vec::new();
        let ghost lv = left;
        terms.push(left);
        proof {
            lemma_exprs_view_one(lv);
            assert(terms@ =~= seq![lv]);
        }
        Ok(Expression::Proximity { operator: ProximityOperator::Proximity { distance: Some(d) }, terms, span })
    }

    /// proximity := primary ["~" number | "NEAR/n" primary | "NEAR/nf" primary]
    fn parse_proximity_expression(&mut self) -> (r: LintResult<Expression>)
        requires
            old(self).wf(),
        ensures
            steps(*old(self), *final(self)),
            agrees(proximity_result(old(self).toks(), old(self).pos()), r, *old(self), *final(self)),
        decreases old(self).toks().len() - old(self).pos(), 1nat,
    {
        let ghost ts = self.toks();
        let ghost p0 = self.pos();
        let ghost s0 = self.spans();
        proof {
            unfold_proximity(ts, p0);
        }
        let left = match self.parse_primary() {
            Ok(e) => e,
            Err(e) => return Err(e),
        };
        let ghost w: Seq<Span> = primary_result(ts, p0)->Ok_0.2;
        let ghost p1 = self.pos();
        proof {
            self.lemma_in_range();
        }
        if self.match_token(&TokenType::Tilde) {
            let r = self.parse_tilde(left);
            assert(self.spans() =~= s0 + w);
            return r;
        }
        let near: Option<(bool, u32)> = match &self.tokens[self.current].token_type {
            TokenType::Near(d) => Some((false, *d)),
            TokenType::NearForward(d) => Some((true, *d)),
            _ => None,
        };
        match near {
            Some((forward, distance)) => {
                self.advance();
                let right = match self.parse_primary() {
                    Ok(e) => e,
                    Err(e) => return Err(e),
                };
                proof {
                    let w2 = primary_result(ts, p1 + 1)->Ok_0.2;
                    assert(self.spans() =~= s0 + (w + w2));
                }
                let span = Span::new(left.span().start, right.span().end);
                let operator = if forward {
                    ProximityOperator::NearForward { distance }
                } else {
                    ProximityOperator::Near { distance }
                };
                let mut terms: Vec<Expression> = Vec::new();
                let ghost l0 = left;
                let ghost r0 = right;
                terms.push(left);
                terms.push(right);
                proof {
                    lemma_exprs_view_two(l0, r0);
                    assert(terms@ =~= seq![l0, r0]);
                }
                Ok(Expression::Proximity { operator, terms, span })
            },
            None => {
                assert(self.spans() =~= s0 + w);
                Ok(left)
            },
        }
    }

    /// primary := "(" expression ")" | "{" word+ "}" | "[" value "TO" value "]"
    ///          | word ":" primary | term
    fn parse_primary(&mut self) -> (r: LintResult<Expression>)
        requires
            old(self).wf(),
        ensures
            steps(*old(self), *final(self)),
            agrees(primary_result(old(self).toks(), old(self).pos()), r, *old(self), *final(self)),
        decreases old(self).toks().len() - old(self).pos(), 0nat,
    {
        let ghost ts = self.toks();
        let ghost p0 = self.pos();
        let ghost s0 = self.spans();
        proof {
            unfold_primary(ts, p0);
            self.lemma_in_range();
        }
        if self.match_token(&TokenType::LeftParen) {
            let start_span = self.previous().span;
            let expr = match self.parse_expression() {
                Ok(e) => e,
                Err(e) => return Err(e),
            };
            if !self.match_token(&TokenType::RightParen) {
                return Err(self.expected_error(")"));
            }
            let end_span = self.previous().span;
            return Ok(Expression::Group { expression: Box::new(expr), span: Span::new(start_span.start, end_span.end) });
        }
        if self.match_token(&TokenType::LeftBrace) {
            let start_span = self.previous().span;
            proof {
                self.lemma_in_range();
            }
            let word = match &self.tokens[self.current].token_type {
                TokenType::Word(w) => Some(w.clone()),
                _ => None,
            };
            match word {
                Some(word) => {
                    let ghost first = word@;
                    self.advance();
                    let mut value = word;
                    loop
                        invariant
                            self.wf(),
                            self.toks() == ts,
                            self.spans() == s0,
                            self.pos() >= p0 + 2,
                            case_words(ts, self.pos(), value@) == case_words(ts, p0 + 2, first),
                        ensures
                            !(kind_at(ts, self.pos()) is Word),
                        decreases ts.len() - self.pos(),
                    {
                        proof {
                            self.lemma_in_range();
                        }
                        let next = match &self.tokens[self.current].token_type {
                            TokenType::Word(w) => Some(w.clone()),
                            _ => None,
                        };
                        match next {
                            Some(w) => {
                                crate::text::push_str(&mut value, " ");
                                crate::text::push_str(&mut value, w.as_str());
                                self.advance();
                            },
                            None => break,
                        }
                    }
                    proof {
                        self.lemma_in_range();
                    }
                    let ghost q = self.pos();
                    if !self.match_token(&TokenType::RightBrace) {
                        assert(case_words(ts, q, value@) == Err::<(Seq<char>, int), LintErrorView>(expected(ts, q, "}"@)));
                        return Err(self.expected_error("}"));
                    }
                    assert(case_words(ts, q, value@) == Ok::<(Seq<char>, int), LintErrorView>((value@, q)));
                    let end_span = self.previous().span;
                    assert(self.spans() =~= s0 + Seq::<Span>::empty());
                    return Ok(Expression::Term { term: Term::CaseSensitive { value }, span: Span::new(start_span.start, end_span.end) });
                },
                None => return Err(self.expected_error("word")),
            }
        }
        if self.match_token(&TokenType::LeftBracket) {
            let r = self.parse_range();
            assert(self.spans() =~= s0 + Seq::<Span>::empty());
            return r;
        }
        proof {
            self.lemma_in_range();
        }
        let field_word = match &self.tokens[self.current].token_type {
            TokenType::Word(w) => Some(w.clone()),
            _ => None,
        };
        if let Some(word) = field_word {
            let len = self.tokens.len();
            if self.current + 1 < len && matches!(self.tokens[self.current + 1].token_type, TokenType::Colon) {
                let word_span = self.peek().span;
                self.advance();
                self.advance();
                let value = match self.parse_primary() {
                    Ok(e) => e,
                    Err(e) => return Err(e),
                };
                return Ok(Self::field_pair(word, word_span, value));
            }
        }
        let r = self.parse_term();
        assert(self.spans() =~= s0 + Seq::<Span>::empty());
        r
    }

    /// The expression for `word:value`, where `word` spans `word_span`.
    fn field_pair(word: String, word_span: Span, value: Expression) -> (r: Expression)
        ensures
            r@ == field_pair_view(word@, word_span, value@),
    {
        let field_type = FieldType::from_str(word.as_str());
        let ghost v0 = value@;
        let value = match value {
            Expression::Range { field, start, end, span } => match field_type {
                Some(f) => Expression::Range { field: Some(f), start, end, span },
                None => Expression::Range { field, start, end, span },
            },
            other => other,
        };
        assert(value@ == field_value(field_type, v0));
        let span = Span::new(word_span.start, value.span().end);
        match field_type {
            Some(f) => Expression::Field { field: f, value: Box::new(value), span },
            None => {
                let text = match &value {
                    Expression::Term { term: Term::Word { value: v }, .. } => v.clone(),
                    Expression::Term { term: Term::Phrase { value: v }, .. } => concat3("\"", v.as_str(), "\""),
                    _ => owned("unknown"),
                };
                let joined = concat3(word.as_str(), ":", text.as_str());
                Expression::Term { term: Term::Word { value: joined }, span }
            },
        }
    }

    fn is_implicit_and_candidate(&self) -> (r: bool)
        requires
            self.wf(),
        ensures
            r == implicit_and_candidate(self.toks(), self.pos()),
    {
        if self.is_at_end() {
            return false;
        }
        match &self.tokens[self.current].token_type {
            TokenType::Word(_) => true,
            TokenType::QuotedString(_) => true,
            TokenType::Number(_) => true,
            TokenType::Hashtag(_) => true,
            TokenType::Mention(_) => true,
            TokenType::LeftParen => true,
            TokenType::LeftBrace => true,
            _ => false,
        }
    }

    fn expected_error(&self, what: &str) -> (r: LintError)
        requires
            self.wf(),
        ensures
            r@ == expected(self.toks(), self.pos(), what@),
    {
        LintError::ExpectedToken {
            span: self.tokens[self.current].span,
            expected: owned(what),
            found: self.tokens[self.current].token_type.describe(),
        }
    }
}

} // verus!
